//! Input history and path completion of the input line.
//!
//! Completion is split in two: `tab_query` names the directory to list,
//! and `tab_complete_with` completes the last token of the input line from
//! that listing. Reading the directory lies between the two.
use vstd::prelude::*;
use crate::state::model::{AppState, AppV, SessionV};
use crate::state::ops::active_index;
use crate::text::{
    chars_of, is_ws, lemma_rfind, opt_str, rfind_in, rfind_spec, starts_with, starts_with_chars,
    str_eq, string_of, strip_pred,
};

verus! {

/// A directory entry, as the completion sees it.
#[derive(Debug, Clone)]
pub struct DirEntry {
    pub name: String,
    pub is_dir: bool,
}

/// The cursor position after one step through the history of length `n`:
/// up (`delta < 0`) starts at the newest entry and stops at the oldest; down
/// leaves the history after the newest entry.
pub open spec fn history_step(cursor: Option<usize>, delta: i32, n: nat) -> Option<int> {
    match cursor {
        None => if delta < 0 {
            Some(n - 1)
        } else {
            None
        },
        Some(i) => if delta < 0 {
            Some(if i == 0 {
                0
            } else {
                i - 1
            })
        } else if i + 1 >= n {
            None
        } else {
            Some(i + 1)
        },
    }
}

/// Whether a step stays inside the history (the cursor comes from earlier
/// steps, so it does unless the history was changed under it).
pub open spec fn step_ok(st: AppV, delta: i32) -> bool {
    match active_index(st) {
        Some(i) => {
            let s = st.sessions[i];
            s.history.len() > 0 ==> match history_step(s.history_cursor, delta, s.history.len()) {
                Some(c) => c < s.history.len(),
                None => true,
            }
        },
        None => true,
    }
}

/// `step_history`: moves through the active session's history; the input
/// line shows the entry, or is empty past the newest one.
pub open spec fn step_spec(st: AppV, delta: i32) -> AppV {
    match active_index(st) {
        None => st,
        Some(i) => {
            let s = st.sessions[i];
            if s.history.len() == 0 {
                st
            } else {
                let c = history_step(s.history_cursor, delta, s.history.len());
                let s_new = SessionV {
                    history_cursor: match c {
                        Some(k) => Some(k as usize),
                        None => None,
                    },
                    input_buffer: match c {
                        Some(k) => s.history[k],
                        None => Seq::empty(),
                    },
                    ..s
                };
                AppV { sessions: st.sessions.update(i, s_new), ..st }
            }
        },
    }
}

// ---------------------------------------------------------------- paths

/// `dir` joined with `p` (as `Path::join` does on Unix).
pub open spec fn join_spec(dir: Seq<char>, p: Seq<char>) -> Seq<char> {
    if p.len() > 0 && p[0] == '/' {
        p
    } else if dir.len() == 0 {
        p
    } else if dir.last() == '/' {
        dir + p
    } else {
        dir.push('/') + p
    }
}

/// A display path made real: `~` and `~/...` under home, absolute paths as
/// they are; anything else has no real form.
pub open spec fn expand_spec(display: Seq<char>, home: Option<Seq<char>>) -> Option<Seq<char>> {
    if display == seq!['~'] || display == seq!['~', '/'] {
        home
    } else if starts_with(display, seq!['~', '/']) {
        match home {
            Some(h) => Some(join_spec(h, display.skip(2))),
            None => None,
        }
    } else if display.len() > 0 && display[0] == '/' {
        Some(display)
    } else {
        None
    }
}

/// Whether the last whitespace of `buf` (if any) is a single-byte
/// character: the token after it starts on a character boundary then.
pub open spec fn token_split_ok(buf: Seq<char>) -> bool {
    match rfind_spec(buf, |c: char| is_ws(c)) {
        Some(k) => (buf[k] as u32) < 0x80,
        None => true,
    }
}

/// Whether completing the active input line stays on character boundaries.
pub open spec fn tab_ok(st: AppV) -> bool {
    match active_index(st) {
        Some(i) => token_split_ok(st.sessions[i].input_buffer),
        None => true,
    }
}

/// The directory completion starts from: the active session's real
/// directory, else its display path made real.
pub open spec fn tab_base(st: AppV) -> Option<Seq<char>> {
    match active_index(st) {
        None => None,
        Some(i) => match st.sessions[i].cwd {
            Some(c) => Some(c),
            None => expand_spec(st.sessions[i].pwd, st.home),
        },
    }
}

/// Whether `tab_query` can run: it stops before looking at the input line
/// when no base directory resolves; otherwise the line must split on a
/// character boundary.
pub open spec fn tab_query_ok(st: AppV) -> bool {
    tab_base(st) is None || tab_ok(st)
}

/// Where the last token of `buf` starts: after the last whitespace.
pub open spec fn token_start(buf: Seq<char>) -> int {
    match rfind_spec(buf, |c: char| is_ws(c)) {
        Some(k) => k + 1,
        None => 0,
    }
}

/// Where the completed part of `token` starts: after its last `/`.
pub open spec fn prefix_start(token: Seq<char>) -> int {
    match rfind_spec(token, strip_pred(false, '/')) {
        Some(k) => k + 1,
        None => 0,
    }
}

/// The directory the active session's completion lists: the directory part
/// of the last token, from the session's real directory (or its display
/// path made real) unless it is absolute or under home.
pub open spec fn tab_query_spec(st: AppV) -> Option<Seq<char>> {
    match active_index(st) {
        None => None,
        Some(i) => {
            let s = st.sessions[i];
            let base = match s.cwd {
                Some(c) => Some(c),
                None => expand_spec(s.pwd, st.home),
            };
            match base {
                None => None,
                Some(b) => {
                    let token = s.input_buffer.skip(token_start(s.input_buffer));
                    let dir_part = token.take(prefix_start(token));
                    Some(
                        if dir_part.len() == 0 {
                            b
                        } else {
                            match expand_spec(dir_part, st.home) {
                                Some(e) => e,
                                None => join_spec(b, dir_part),
                            }
                        },
                    )
                },
            }
        },
    }
}

/// The longest common prefix of two sequences.
pub open spec fn lcp(a: Seq<char>, b: Seq<char>) -> Seq<char>
    decreases a.len(),
{
    if a.len() == 0 || b.len() == 0 || a[0] != b[0] {
        Seq::empty()
    } else {
        seq![a[0]] + lcp(a.drop_first(), b.drop_first())
    }
}

/// The longest common prefix of all names (of at least one).
pub open spec fn common_prefix_spec(names: Seq<Seq<char>>) -> Seq<char>
    decreases names.len(),
{
    if names.len() <= 1 {
        if names.len() == 1 {
            names[0]
        } else {
            Seq::empty()
        }
    } else {
        lcp(common_prefix_spec(names.drop_last()), names.last())
    }
}

/// The entries whose names start with `prefix`.
pub open spec fn matching(entries: Seq<(Seq<char>, bool)>, prefix: Seq<char>) -> Seq<(Seq<char>, bool)> {
    entries.filter(|e: (Seq<char>, bool)| starts_with(e.0, prefix))
}

/// What completes `prefix` among the entries: a single match in full (a
/// directory with a trailing `/`), several by their common prefix.
pub open spec fn completion_of(ms: Seq<(Seq<char>, bool)>) -> Seq<char> {
    if ms.len() == 1 {
        if ms[0].1 {
            ms[0].0.push('/')
        } else {
            ms[0].0
        }
    } else {
        common_prefix_spec(ms.map_values(|e: (Seq<char>, bool)| e.0))
    }
}

/// `tab_complete_with`: the last token of the active input line is
/// completed from the directory's entries, when that adds something.
pub open spec fn tab_spec(st: AppV, entries: Seq<(Seq<char>, bool)>) -> AppV {
    match active_index(st) {
        None => st,
        Some(i) => {
            let s = st.sessions[i];
            let buf = s.input_buffer;
            let ts = token_start(buf);
            let token = buf.skip(ts);
            let ps = prefix_start(token);
            let prefix = token.skip(ps);
            let ms = matching(entries, prefix);
            if ms.len() == 0 {
                st
            } else {
                let completion = completion_of(ms);
                if completion.len() <= prefix.len() {
                    st
                } else {
                    let s_new = SessionV {
                        input_buffer: buf.take(ts) + token.take(ps) + completion,
                        history_cursor: None,
                        ..s
                    };
                    AppV { sessions: st.sessions.update(i, s_new), ..st }
                }
            }
        },
    }
}

pub open spec fn entries_view(v: Seq<DirEntry>) -> Seq<(Seq<char>, bool)> {
    v.map_values(|e: DirEntry| (e.name@, e.is_dir))
}

fn push_all(v: &mut Vec<char>, s: &[char])
    ensures
        final(v)@ == old(v)@ + s@,
{
    let mut i: usize = 0;
    while i < s.len()
        invariant
            i <= s@.len(),
            v@ == old(v)@ + s@.take(i as int),
        decreases s@.len() - i,
    {
        v.push(s[i]);
        assert(s@.take(i + 1) =~= s@.take(i as int).push(s@[i as int]));
        i = i + 1;
    }
    assert(s@.take(i as int) =~= s@);
}

/// `dir` joined with `p`.
pub fn join_path(dir: &[char], p: &[char]) -> (r: Vec<char>)
    ensures
        r@ == join_spec(dir@, p@),
{
    let mut r: Vec<char> = Vec::new();
    if p.len() > 0 && p[0] == '/' {
        push_all(&mut r, p);
    } else if dir.len() == 0 {
        push_all(&mut r, p);
    } else {
        push_all(&mut r, dir);
        if dir[dir.len() - 1] != '/' {
            r.push('/');
        }
        push_all(&mut r, p);
    }
    assert(r@ =~= join_spec(dir@, p@));
    r
}

/// A display path made real (see `expand_spec`).
pub fn expand_path(display: &[char], home: &Option<String>) -> (r: Option<Vec<char>>)
    ensures
        match r {
            Some(v) => expand_spec(display@, opt_str(*home)) == Some(v@),
            None => expand_spec(display@, opt_str(*home)) is None,
        },
{
    let n = display.len();
    let tilde = n >= 1 && display[0] == '~';
    let tilde_slash = n >= 2 && tilde && display[1] == '/';
    if (n == 1 && tilde) || (n == 2 && tilde_slash) {
        assert(n == 1 ==> display@ =~= seq!['~']);
        assert(n == 2 ==> display@ =~= seq!['~', '/']);
        return match home {
            Some(h) => Some(chars_of(h.as_str())),
            None => None,
        };
    }
    assert(display@ != seq!['~'] && display@ != seq!['~', '/']) by {
        if display@ == seq!['~'] {
            assert(display@[0] == '~');
        }
        if display@ == seq!['~', '/'] {
            assert(display@[0] == '~' && display@[1] == '/');
        }
    }
    if tilde_slash {
        assert(starts_with(display@, seq!['~', '/'])) by {
            assert(display@.take(2) =~= seq!['~', '/']);
        }
        return match home {
            Some(h) => {
                let hv = chars_of(h.as_str());
                let rest = &display[2..n];
                assert(rest@ =~= display@.skip(2));
                Some(join_path(hv.as_slice(), rest))
            },
            None => None,
        };
    }
    assert(!starts_with(display@, seq!['~', '/'])) by {
        if starts_with(display@, seq!['~', '/']) {
            assert(display@.take(2)[0] == '~' && display@.take(2)[1] == '/');
        }
    }
    if n > 0 && display[0] == '/' {
        let mut v: Vec<char> = Vec::new();
        push_all(&mut v, display);
        return Some(v);
    }
    None
}

/// The longest common prefix of two character sequences.
fn common_of(a: &[char], b: &[char]) -> (r: Vec<char>)
    ensures
        r@ == lcp(a@, b@),
{
    let mut k: usize = 0;
    assert(a@.skip(0) =~= a@);
    assert(b@.skip(0) =~= b@);
    assert(a@.take(0) + lcp(a@, b@) =~= lcp(a@, b@));
    while k < a.len() && k < b.len() && a[k] == b[k]
        invariant
            k <= a@.len(),
            k <= b@.len(),
            lcp(a@, b@) == a@.take(k as int) + lcp(a@.skip(k as int), b@.skip(k as int)),
        decreases a@.len() - k,
    {
        let ghost sa = a@.skip(k as int);
        let ghost sb = b@.skip(k as int);
        assert(sa.drop_first() =~= a@.skip(k + 1));
        assert(sb.drop_first() =~= b@.skip(k + 1));
        assert(a@.take(k + 1) =~= a@.take(k as int) + seq![a@[k as int]]);
        k = k + 1;
    }
    let mut r: Vec<char> = Vec::new();
    push_all(&mut r, &a[0..k]);
    assert(a@.subrange(0, k as int) =~= a@.take(k as int));
    assert(lcp(a@.skip(k as int), b@.skip(k as int)) =~= Seq::<char>::empty());
    assert(r@ =~= lcp(a@, b@));
    r
}

impl AppState {
    /// Moves through the active session's input history (see `step_spec`):
    /// `delta < 0` goes to older entries, otherwise to newer ones.
    pub fn step_history(&mut self, delta: i32)
        requires
            step_ok(old(self)@, delta),
        ensures
            final(self)@ == step_spec(old(self)@, delta),
    {
        let ghost st = self@;
        let i = match self.active_position() {
            None => return,
            Some(i) => i,
        };
        let n = self.sessions[i].history.len();
        if n == 0 {
            return;
        }
        let new_cursor: Option<usize> = match self.sessions[i].history_cursor {
            None => if delta < 0 {
                Some(n - 1)
            } else {
                None
            },
            Some(c) => if delta < 0 {
                Some(if c == 0 {
                    0
                } else {
                    c - 1
                })
            } else if c >= n - 1 {
                None
            } else {
                Some(c + 1)
            },
        };
        let text = match new_cursor {
            Some(k) => self.sessions[i].history[k].clone(),
            None => String::new(),
        };
        self.sessions[i].history_cursor = new_cursor;
        self.sessions[i].input_buffer = text;
        assert(self@.sessions =~= step_spec(st, delta).sessions);
    }

    /// Whether completing the active input line stays on character
    /// boundaries (see `tab_ok`).
    pub fn tab_input_ok(&self) -> (r: bool)
        ensures
            r == tab_ok(self@),
    {
        let i = match self.active_position() {
            None => return true,
            Some(i) => i,
        };
        let buf = chars_of(self.sessions[i].input_buffer.as_str());
        let n = buf.len();
        assert(buf@.take(n as int) =~= buf@);
        assert(strip_pred(true, ' ') =~= (|c: char| is_ws(c)));
        match rfind_in(buf.as_slice(), n, true, ' ') {
            Some(k) => (buf[k] as u32) < 0x80,
            None => true,
        }
    }

    /// Whether `tab_query` may be called (see `tab_query_ok`).
    pub fn tab_query_allowed(&self) -> (r: bool)
        ensures
            r == tab_query_ok(self@),
    {
        let i = match self.active_position() {
            None => return true,
            Some(i) => i,
        };
        let s = &self.sessions[i];
        if s.cwd.is_none() {
            let pv = chars_of(s.pwd.as_str());
            if expand_path(pv.as_slice(), &self.home).is_none() {
                return true;
            }
        }
        self.tab_input_ok()
    }

    /// Whether `step_history(delta)` stays inside the history (see `step_ok`).
    pub fn history_step_ok(&self, delta: i32) -> (r: bool)
        ensures
            r == step_ok(self@, delta),
    {
        let i = match self.active_position() {
            None => return true,
            Some(i) => i,
        };
        let n = self.sessions[i].history.len();
        if n == 0 {
            return true;
        }
        match self.sessions[i].history_cursor {
            None => true,
            Some(c) => if delta < 0 {
                (if c == 0 {
                    0
                } else {
                    c - 1
                }) < n
            } else {
                true
            },
        }
    }

    /// The directory to list for completing the active input line (see
    /// `tab_query_spec`).
    pub fn tab_query(&self) -> (r: Option<String>)
        requires
            tab_query_ok(self@),
        ensures
            opt_str(r) == tab_query_spec(self@),
    {
        let i = match self.active_position() {
            None => return None,
            Some(i) => i,
        };
        let s = &self.sessions[i];
        let base: Vec<char> = match &s.cwd {
            Some(c) => chars_of(c.as_str()),
            None => {
                let pv = chars_of(s.pwd.as_str());
                match expand_path(pv.as_slice(), &self.home) {
                    Some(b) => b,
                    None => return None,
                }
            },
        };
        let buf = chars_of(s.input_buffer.as_str());
        let n = buf.len();
        let ts = match rfind_in(buf.as_slice(), n, true, ' ') {
            Some(k) => k + 1,
            None => 0,
        };
        assert(buf@.take(n as int) =~= buf@);
        assert(strip_pred(true, ' ') =~= (|c: char| is_ws(c)));
        let token = &buf.as_slice()[ts..n];
        let ghost tk = buf@.skip(ts as int);
        assert(token@ =~= tk);
        let tn = token.len();
        let ps = match rfind_in(token, tn, false, '/') {
            Some(k) => k + 1,
            None => 0,
        };
        assert(token@.take(tn as int) =~= token@);
        let dir_part = &token[0..ps];
        assert(dir_part@ =~= tk.take(ps as int));
        let dir: Vec<char> = if ps == 0 {
            base
        } else {
            match expand_path(dir_part, &self.home) {
                Some(e) => e,
                None => join_path(base.as_slice(), dir_part),
            }
        };
        Some(string_of(dir.as_slice()))
    }

    /// Completes the last token of the active input line from the entries
    /// of the directory that `tab_query` named (see `tab_spec`).
    pub fn tab_complete_with(&mut self, entries: &Vec<DirEntry>)
        requires
            tab_ok(old(self)@),
        ensures
            final(self)@ == tab_spec(old(self)@, entries_view(entries@)),
    {
        let ghost st = self@;
        let i = match self.active_position() {
            None => return,
            Some(i) => i,
        };
        let buf = chars_of(self.sessions[i].input_buffer.as_str());
        let (ts, ps) = split_token(buf.as_slice());
        let ghost tk = buf@.skip(ts as int);
        let n = buf.len();
        assert(ts + ps <= n);
        let start = ts + ps;
        let prefix = &buf.as_slice()[start..n];
        assert(prefix@ =~= tk.skip(ps as int));
        let ms = matching_entries(entries, prefix);
        if ms.len() == 0 {
            return;
        }
        let completion = completion_for(&ms);
        if completion.len() <= prefix.len() {
            return;
        }
        let mut nb: Vec<char> = Vec::new();
        push_all(&mut nb, &buf.as_slice()[0..start]);
        push_all(&mut nb, completion.as_slice());
        let new_buf = string_of(nb.as_slice());
        self.sessions[i].input_buffer = new_buf;
        self.sessions[i].history_cursor = None;
        assert(buf@.subrange(0, ts + ps) =~= buf@.take(ts as int) + tk.take(ps as int));
        assert(new_buf@ =~= buf@.take(ts as int) + tk.take(ps as int) + completion@);
        assert(self@.sessions =~= tab_spec(st, entries_view(entries@)).sessions);
    }
}

/// Where the last token of `buf` starts, and where its completed part
/// starts within it.
fn split_token(buf: &[char]) -> (r: (usize, usize))
    ensures
        r.0 == token_start(buf@),
        r.0 + r.1 <= buf@.len(),
        r.1 == prefix_start(buf@.skip(r.0 as int)),
{
    let n = buf.len();
    let ts = match rfind_in(buf, n, true, ' ') {
        Some(k) => k + 1,
        None => 0,
    };
    assert(buf@.take(n as int) =~= buf@);
    assert(strip_pred(true, ' ') =~= (|c: char| is_ws(c)));
    let token = &buf[ts..n];
    assert(token@ =~= buf@.skip(ts as int));
    let tn = token.len();
    let ps = match rfind_in(token, tn, false, '/') {
        Some(k) => k + 1,
        None => 0,
    };
    assert(token@.take(tn as int) =~= token@);
    (ts, ps)
}

/// The entries whose names start with `prefix`, in order.
fn matching_entries(entries: &Vec<DirEntry>, prefix: &[char]) -> (r: Vec<DirEntry>)
    ensures
        entries_view(r@) == matching(entries_view(entries@), prefix@),
{
    let ghost ev = entries_view(entries@);
    let ghost pred = |e: (Seq<char>, bool)| starts_with(e.0, prefix@);
    let mut r: Vec<DirEntry> = Vec::new();
    let mut j: usize = 0;
    while j < entries.len()
        invariant
            j <= entries@.len(),
            ev == entries_view(entries@),
            pred == (|e: (Seq<char>, bool)| starts_with(e.0, prefix@)),
            entries_view(r@) == ev.take(j as int).filter(pred),
        decreases entries@.len() - j,
    {
        proof {
            crate::state::ops::lemma_filter_push(ev.take(j as int), pred, ev[j as int]);
            assert(ev.take(j + 1) =~= ev.take(j as int).push(ev[j as int]));
        }
        let nv = chars_of(entries[j].name.as_str());
        if starts_with_chars(nv.as_slice(), prefix) {
            r.push(DirEntry { name: entries[j].name.clone(), is_dir: entries[j].is_dir });
            assert(entries_view(r@) =~= ev.take(j as int).filter(pred).push(ev[j as int]));
        }
        j = j + 1;
    }
    assert(ev.take(j as int) =~= ev);
    r
}

/// What completes the matches (see `completion_of`).
fn completion_for(ms: &Vec<DirEntry>) -> (r: Vec<char>)
    requires
        ms@.len() > 0,
    ensures
        r@ == completion_of(entries_view(ms@)),
{
    let ghost mv = entries_view(ms@);
    if ms.len() == 1 {
        let mut c = chars_of(ms[0].name.as_str());
        if ms[0].is_dir {
            c.push('/');
        }
        return c;
    }
    let ghost nm = mv.map_values(|e: (Seq<char>, bool)| e.0);
    let mut c = chars_of(ms[0].name.as_str());
    let mut k: usize = 1;
    assert(nm.take(1) =~= seq![nm[0]]);
    while k < ms.len()
        invariant
            1 <= k <= ms@.len(),
            mv == entries_view(ms@),
            nm == mv.map_values(|e: (Seq<char>, bool)| e.0),
            c@ == common_prefix_spec(nm.take(k as int)),
        decreases ms@.len() - k,
    {
        let nk = chars_of(ms[k].name.as_str());
        c = common_of(c.as_slice(), nk.as_slice());
        assert(nm.take(k + 1).drop_last() =~= nm.take(k as int));
        k = k + 1;
    }
    assert(nm.take(k as int) =~= nm);
    c
}

/// A single match completes to its whole name; a trailing `/` is added for a
/// directory and only for a directory.
pub proof fn law_completion_single(n: Seq<char>)
    ensures
        completion_of(seq![(n, false)]) == n,
        completion_of(seq![(n, true)]) == n.push('/'),
{
}

proof fn lemma_lcp_prefix(a: Seq<char>, b: Seq<char>)
    ensures
        starts_with(a, lcp(a, b)),
        starts_with(b, lcp(a, b)),
    decreases a.len(),
{
    if !(a.len() == 0 || b.len() == 0 || a[0] != b[0]) {
        lemma_lcp_prefix(a.drop_first(), b.drop_first());
        let r = lcp(a.drop_first(), b.drop_first());
        assert(a.take(r.len() as int + 1) =~= seq![a[0]] + a.drop_first().take(r.len() as int));
        assert(b.take(r.len() as int + 1) =~= seq![b[0]] + b.drop_first().take(r.len() as int));
    } else {
        assert(a.take(0) =~= Seq::<char>::empty());
        assert(b.take(0) =~= Seq::<char>::empty());
    }
}

proof fn lemma_prefix_trans(s: Seq<char>, p: Seq<char>, q: Seq<char>)
    requires
        starts_with(s, p),
        starts_with(p, q),
    ensures
        starts_with(s, q),
{
    assert(s.take(q.len() as int) =~= p.take(q.len() as int));
}

proof fn lemma_common_prefix(names: Seq<Seq<char>>)
    requires
        names.len() >= 1,
    ensures
        forall|k: int| 0 <= k < names.len() ==> starts_with(#[trigger] names[k], common_prefix_spec(names)),
    decreases names.len(),
{
    if names.len() == 1 {
        assert(names[0].take(names[0].len() as int) =~= names[0]);
    } else {
        let d = names.drop_last();
        lemma_common_prefix(d);
        let c = common_prefix_spec(d);
        lemma_lcp_prefix(c, names.last());
        assert forall|k: int| 0 <= k < names.len() implies starts_with(#[trigger] names[k], common_prefix_spec(names)) by {
            if k < names.len() - 1 {
                assert(names[k] == d[k]);
                lemma_prefix_trans(names[k], c, lcp(c, names.last()));
            }
        }
    }
}

/// Several matches complete to a common prefix of all their names.
pub proof fn law_completion_common(ms: Seq<(Seq<char>, bool)>)
    requires
        ms.len() >= 2,
    ensures
        forall|k: int| 0 <= k < ms.len() ==> starts_with(#[trigger] ms[k].0, completion_of(ms)),
{
    let names = ms.map_values(|e: (Seq<char>, bool)| e.0);
    lemma_common_prefix(names);
    assert forall|k: int| 0 <= k < ms.len() implies starts_with(#[trigger] ms[k].0, completion_of(ms)) by {
        assert(names[k] == ms[k].0);
    }
}

} // verus!
