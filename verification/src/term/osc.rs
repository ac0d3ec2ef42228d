//! `OscScanner`: strips the OSC 133 (semantic prompt) and OSC 7 (working
//! directory) sequences out of the raw stream and reports them as events,
//! leaving every other byte, escape sequences included, as output.
use vstd::prelude::*;
use crate::num::{parse_i32, parse_i32_range};
use crate::text::{lossy_decode, push_lossy, utf8_ok, utf8_valid};

verus! {

/// A logical event that the scanner takes out of the raw stream.
#[derive(Debug, Clone, PartialEq, Eq)]
pub enum BlockEvent {
    /// `OSC 133;A`: a prompt starts.
    PromptStart,
    /// `OSC 133;C`: a command starts running.
    CommandStart,
    /// `OSC 133;D[;exit]`: a command ended; `exit` when the code was given.
    CommandEnd { exit: Option<i32> },
    /// `OSC 7;file://host/path`: the working directory, decoded.
    Cwd(String),
    /// Any other bytes (terminal output, SGR escapes included).
    Output(Vec<u8>),
}

/// Mathematical form of a `BlockEvent`.
pub enum BlockEventV {
    PromptStart,
    CommandStart,
    CommandEnd { exit: Option<i32> },
    Cwd(Seq<char>),
    Output(Seq<u8>),
}

impl View for BlockEvent {
    type V = BlockEventV;

    open spec fn view(&self) -> BlockEventV {
        match self {
            BlockEvent::PromptStart => BlockEventV::PromptStart,
            BlockEvent::CommandStart => BlockEventV::CommandStart,
            BlockEvent::CommandEnd { exit } => BlockEventV::CommandEnd { exit: *exit },
            BlockEvent::Cwd(s) => BlockEventV::Cwd(s@),
            BlockEvent::Output(v) => BlockEventV::Output(v@),
        }
    }
}

pub open spec fn events_view(v: Seq<BlockEvent>) -> Seq<BlockEventV> {
    v.map_values(|e: BlockEvent| e@)
}

/// Where the scanner stands between two bytes.
#[derive(Clone, Copy, PartialEq, Eq, Structural, Debug)]
pub enum ScanState {
    Ground,
    /// One ESC seen; `]` next starts an OSC.
    Esc,
    /// Collecting the body of an OSC (after `ESC ]`).
    Osc,
    /// ESC inside an OSC: a candidate for the `ESC \` terminator.
    OscEsc,
}

/// The state machine that strips OSC 133 / OSC 7 sequences from the stream.
///
/// It keeps the state of an unfinished escape between chunks, so a sequence
/// split across two reads is still recognised.
pub struct OscScanner {
    state: ScanState,
    /// Body of the OSC being collected (such as `133;D;0`).
    osc: Vec<u8>,
}

/// Mathematical form of the scanner.
pub struct ScanV {
    pub state: ScanState,
    pub osc: Seq<u8>,
}

impl View for OscScanner {
    type V = ScanV;

    closed spec fn view(&self) -> ScanV {
        ScanV { state: self.state, osc: self.osc@ }
    }
}

/// What one input byte contributes to the scanner's output.
pub enum ScanItem {
    /// A byte of plain output.
    Byte(u8),
    /// A finished OSC: output collected so far is emitted, then the event
    /// (if the OSC is one of the supported ones).
    Flush(Option<BlockEventV>),
}

/// One byte in the `Esc` state.
pub open spec fn esc_step(osc: Seq<u8>, b: u8) -> (ScanV, Seq<ScanItem>) {
    if b == 0x5d {
        (ScanV { state: ScanState::Osc, osc: seq![] }, seq![])
    } else if b == 0x1b {
        (ScanV { state: ScanState::Esc, osc }, seq![ScanItem::Byte(0x1b)])
    } else {
        (ScanV { state: ScanState::Ground, osc }, seq![ScanItem::Byte(0x1b), ScanItem::Byte(b)])
    }
}

/// One byte of the scanner.
pub open spec fn scan_step(st: ScanV, b: u8) -> (ScanV, Seq<ScanItem>) {
    match st.state {
        ScanState::Ground => if b == 0x1b {
            (ScanV { state: ScanState::Esc, osc: st.osc }, seq![])
        } else {
            (st, seq![ScanItem::Byte(b)])
        },
        ScanState::Esc => esc_step(st.osc, b),
        ScanState::Osc => if b == 0x07 {
            (ScanV { state: ScanState::Ground, osc: st.osc }, seq![ScanItem::Flush(osc_event(st.osc))])
        } else if b == 0x1b {
            (ScanV { state: ScanState::OscEsc, osc: st.osc }, seq![])
        } else {
            (ScanV { state: ScanState::Osc, osc: st.osc.push(b) }, seq![])
        },
        ScanState::OscEsc => if b == 0x5c {
            (ScanV { state: ScanState::Ground, osc: st.osc }, seq![ScanItem::Flush(osc_event(st.osc))])
        } else {
            // An improper terminator ends the OSC; the byte is read again after an ESC.
            let r = esc_step(st.osc, b);
            (r.0, seq![ScanItem::Flush(osc_event(st.osc))] + r.1)
        },
    }
}

/// The scanner run over `bytes`: final state and output items.
pub open spec fn scan(st: ScanV, bytes: Seq<u8>) -> (ScanV, Seq<ScanItem>)
    decreases bytes.len(),
{
    if bytes.len() == 0 {
        (st, seq![])
    } else {
        let r = scan(st, bytes.drop_last());
        let s = scan_step(r.0, bytes.last());
        (s.0, r.1 + s.1)
    }
}

/// One item added to the grouping: a byte is held back, a flush emits the
/// held bytes and then its event.
pub open spec fn group_step(acc: (Seq<BlockEventV>, Seq<u8>), item: ScanItem) -> (
    Seq<BlockEventV>,
    Seq<u8>,
) {
    match item {
        ScanItem::Byte(b) => (acc.0, acc.1.push(b)),
        ScanItem::Flush(e) => (acc.0 + output_event(acc.1) + option_seq(e), seq![]),
    }
}

/// Output items grouped into events, left to right: bytes accumulate until a
/// flush; returns the events so far and the bytes not yet emitted.
pub open spec fn group_acc(items: Seq<ScanItem>) -> (Seq<BlockEventV>, Seq<u8>)
    decreases items.len(),
{
    if items.len() == 0 {
        (seq![], seq![])
    } else {
        group_step(group_acc(items.drop_last()), items.last())
    }
}

/// Whether every item is a plain byte.
pub open spec fn all_bytes(items: Seq<ScanItem>) -> bool {
    forall|k: int| 0 <= k < items.len() ==> #[trigger] items[k] is Byte
}

/// The plain bytes among the items.
pub open spec fn bytes_of(items: Seq<ScanItem>) -> Seq<u8>
    decreases items.len(),
{
    if items.len() == 0 {
        seq![]
    } else {
        match items.last() {
            ScanItem::Byte(b) => bytes_of(items.drop_last()).push(b),
            ScanItem::Flush(_) => bytes_of(items.drop_last()),
        }
    }
}

pub proof fn lemma_group_push(items: Seq<ScanItem>, x: ScanItem)
    ensures
        group_acc(items.push(x)) == group_step(group_acc(items), x),
{
    assert(items.push(x).drop_last() =~= items);
}

/// An `Output` event for the bytes, none when there are none.
pub open spec fn output_event(out: Seq<u8>) -> Seq<BlockEventV> {
    if out.len() == 0 {
        seq![]
    } else {
        seq![BlockEventV::Output(out)]
    }
}

pub open spec fn option_seq<T>(o: Option<T>) -> Seq<T> {
    match o {
        Some(x) => seq![x],
        None => seq![],
    }
}

/// The events that `process` returns for the given items.
pub open spec fn group(items: Seq<ScanItem>) -> Seq<BlockEventV> {
    group_acc(items).0 + output_event(group_acc(items).1)
}

/// Index of the first `b` in `s`, if any.
pub open spec fn find_byte(s: Seq<u8>, b: u8) -> Option<int> {
    if exists|i: int| 0 <= i < s.len() && s[i] == b {
        Some(choose|i: int| 0 <= i < s.len() && s[i] == b && forall|j: int| 0 <= j < i ==> s[j] != b)
    } else {
        None
    }
}

/// The `;`-separated fields of `s` (at least one).
#[verifier::opaque]
pub open spec fn fields(s: Seq<u8>) -> Seq<Seq<u8>>
    decreases s.len(),
{
    match find_byte(s, 0x3b) {
        Some(i) => if 0 <= i < s.len() {
            seq![s.take(i)] + fields(s.skip(i + 1))
        } else {
            seq![s]
        },
        None => seq![s],
    }
}

pub open spec fn hex_val(b: u8) -> Option<nat> {
    if 0x30 <= b <= 0x39 {
        Some((b - 0x30) as nat)
    } else if 0x61 <= b <= 0x66 {
        Some((b - 0x61 + 10) as nat)
    } else if 0x41 <= b <= 0x46 {
        Some((b - 0x41 + 10) as nat)
    } else {
        None
    }
}

/// `u8::from_str_radix(.., 16)` on the two bytes `a b`.
pub open spec fn hex_pair(a: u8, b: u8) -> Option<u8> {
    if a == 0x2b {
        match hex_val(b) {
            Some(v) => Some(v as u8),
            None => None,
        }
    } else {
        match (hex_val(a), hex_val(b)) {
            (Some(x), Some(y)) => Some((x * 16 + y) as u8),
            _ => None,
        }
    }
}

/// Decoding of `%XX` escapes: a `%` followed by two more bytes that parse as
/// a hexadecimal number becomes that byte; everything else is kept.
pub open spec fn percent_decoded(s: Seq<u8>) -> Seq<u8>
    decreases s.len(),
{
    if s.len() == 0 {
        seq![]
    } else if s[0] == 0x25 && 2 < s.len() && hex_pair(s[1], s[2]) is Some {
        seq![hex_pair(s[1], s[2])->0] + percent_decoded(s.skip(3))
    } else {
        seq![s[0]] + percent_decoded(s.skip(1))
    }
}

pub open spec fn has_prefix(s: Seq<u8>, p: Seq<u8>) -> bool {
    p.len() <= s.len() && s.take(p.len() as int) == p
}

/// The path of an OSC 7 body: after `7;`, without `file://` and the host.
pub open spec fn osc7_path(body: Seq<u8>) -> Seq<u8> {
    let uri = if has_prefix(body, seq![0x37u8, 0x3b]) {
        body.skip(2)
    } else {
        seq![]
    };
    if has_prefix(uri, seq![0x66u8, 0x69, 0x6c, 0x65, 0x3a, 0x2f, 0x2f]) {
        let rest = uri.skip(7);
        match find_byte(rest, 0x2f) {
            Some(i) => rest.skip(i),
            None => rest,
        }
    } else {
        uri
    }
}

/// The event of an OSC 133 body, given its fields.
pub open spec fn osc133_event(f: Seq<Seq<u8>>) -> Option<BlockEventV> {
    if f.len() < 2 {
        None
    } else if f[1] == seq![0x41u8] {
        Some(BlockEventV::PromptStart)
    } else if f[1] == seq![0x43u8] {
        Some(BlockEventV::CommandStart)
    } else if f[1] == seq![0x44u8] {
        Some(
            BlockEventV::CommandEnd {
                exit: if f.len() >= 3 {
                    parse_i32(f[2])
                } else {
                    None
                },
            },
        )
    } else {
        None
    }
}

/// The event of an OSC body (`133;A`, `133;D;0`, `7;file://host/path`, ...);
/// `None` for ill-formed UTF-8 and for OSCs other than 133 A/C/D and 7.
pub open spec fn osc_event(body: Seq<u8>) -> Option<BlockEventV> {
    let f = fields(body);
    if !utf8_ok(body) {
        None
    } else if f[0] == seq![0x31u8, 0x33, 0x33] {
        osc133_event(f)
    } else if f[0] == seq![0x37u8] {
        Some(BlockEventV::Cwd(lossy_decode(percent_decoded(osc7_path(body)))))
    } else {
        None
    }
}

/// Index of the first `b` in `s[start..]`, or `s.len()` when there is none.
pub(crate) fn find_from(s: &[u8], start: usize, b: u8) -> (r: usize)
    requires
        start <= s@.len(),
    ensures
        start <= r <= s@.len(),
        r == s@.len() ==> find_byte(s@.skip(start as int), b) is None,
        r < s@.len() ==> find_byte(s@.skip(start as int), b) == Some(r - start),
{
    let ghost t = s@.skip(start as int);
    let mut i = start;
    while i < s.len() && s[i] != b
        invariant
            start <= i <= s@.len(),
            t == s@.skip(start as int),
            forall|j: int| 0 <= j < i - start ==> t[j] != b,
        decreases s@.len() - i,
    {
        i = i + 1;
    }
    proof {
        if i < s.len() {
            assert(t[i - start] == b);
            let k = choose|k: int| 0 <= k < t.len() && t[k] == b && forall|j: int| 0 <= j < k ==> t[j] != b;
            assert(exists|k: int| 0 <= k < t.len() && t[k] == b && forall|j: int| 0 <= j < k ==> t[j] != b) by {
                assert(0 <= i - start < t.len() && t[i - start] == b && forall|j: int| 0 <= j < i - start ==> t[j] != b);
            }
            if k < i - start {
                assert(t[k] != b);
            } else if k > i - start {
                assert(t[i - start] != b);
            }
        } else {
            assert forall|k: int| 0 <= k < t.len() implies t[k] != b by {}
        }
    }
    i
}

pub(crate) proof fn lemma_fields_nonempty(s: Seq<u8>)
    ensures
        fields(s).len() >= 1,
{
    reveal(fields);
}

pub(crate) proof fn lemma_fields_step(s: Seq<u8>, start: int, r: int)
    requires
        0 <= start <= r <= s.len(),
        r == s.len() ==> find_byte(s.skip(start), 0x3b) is None,
        r < s.len() ==> find_byte(s.skip(start), 0x3b) == Some(r - start),
    ensures
        r == s.len() ==> fields(s.skip(start)) == seq![s.skip(start)],
        r < s.len() ==> fields(s.skip(start)) == seq![s.subrange(start, r)] + fields(s.skip(r + 1)),
{
    reveal(fields);
    let t = s.skip(start);
    if r < s.len() {
        assert(t.take(r - start) =~= s.subrange(start, r));
        assert(t.skip(r - start + 1) =~= s.skip(r + 1));
    }
}

fn hex_digit(b: u8) -> (r: Option<u8>)
    ensures
        match hex_val(b) {
            Some(v) => r == Some(v as u8),
            None => r is None,
        },
{
    if 0x30 <= b && b <= 0x39 {
        Some(b - 0x30)
    } else if 0x61 <= b && b <= 0x66 {
        Some(b - 0x61 + 10)
    } else if 0x41 <= b && b <= 0x46 {
        Some(b - 0x41 + 10)
    } else {
        None
    }
}

fn hex_pair_exec(a: u8, b: u8) -> (r: Option<u8>)
    ensures
        r == hex_pair(a, b),
{
    if a == 0x2b {
        hex_digit(b)
    } else {
        match (hex_digit(a), hex_digit(b)) {
            (Some(x), Some(y)) => Some(x * 16 + y),
            _ => None,
        }
    }
}

/// Decodes the minimal `%XX` escapes of an OSC 7 path.
fn percent_decode(s: &[u8], from: usize) -> (r: Vec<u8>)
    requires
        from <= s@.len(),
    ensures
        r@ == percent_decoded(s@.skip(from as int)),
{
    let mut out: Vec<u8> = Vec::new();
    let mut i = from;
    while i < s.len()
        invariant
            from <= i <= s@.len(),
            out@ + percent_decoded(s@.skip(i as int)) == percent_decoded(s@.skip(from as int)),
        decreases s@.len() - i,
    {
        let ghost t = s@.skip(i as int);
        if s[i] == 0x25 && s.len() - i > 2 {
            match hex_pair_exec(s[i + 1], s[i + 2]) {
                Some(v) => {
                    assert(t.skip(3) =~= s@.skip(i + 3));
                    out.push(v);
                    assert(out@ + percent_decoded(s@.skip(i + 3)) =~= percent_decoded(s@.skip(from as int)));
                    i = i + 3;
                    continue;
                },
                None => {},
            }
        }
        assert(t.skip(1) =~= s@.skip(i + 1));
        out.push(s[i]);
        assert(out@ + percent_decoded(s@.skip(i + 1)) =~= percent_decoded(s@.skip(from as int)));
        i = i + 1;
    }
    assert(s@.skip(i as int) =~= Seq::<u8>::empty());
    assert(out@ =~= out@ + percent_decoded(s@.skip(i as int)));
    out
}

/// Whether `s[start..]` begins with `lit`.
fn prefix_at(s: &[u8], start: usize, lit: &[u8]) -> (r: bool)
    requires
        start <= s@.len(),
    ensures
        r == has_prefix(s@.skip(start as int), lit@),
{
    if s.len() - start < lit.len() {
        return false;
    }
    let r = range_is(s, start, start + lit.len(), lit);
    assert(s@.skip(start as int).take(lit@.len() as int) =~= s@.subrange(start as int, start + lit@.len()));
    r
}

/// Start of the OSC 7 path inside the body.
fn osc7_path_start(body: &[u8]) -> (p: usize)
    ensures
        p <= body@.len(),
        osc7_path(body@) == body@.skip(p as int),
{
    let len = body.len();
    let ghost b = body@;
    let seven: [u8; 2] = [0x37, 0x3b];
    let file: [u8; 7] = [0x66, 0x69, 0x6c, 0x65, 0x3a, 0x2f, 0x2f];
    assert(seven@ =~= seq![0x37u8, 0x3b]);
    assert(file@ =~= seq![0x66u8, 0x69, 0x6c, 0x65, 0x3a, 0x2f, 0x2f]);
    assert(b.skip(0) =~= b);
    let uri_start: usize = if prefix_at(body, 0, &seven) {
        2
    } else {
        assert(b.skip(len as int) =~= Seq::<u8>::empty());
        len
    };
    if prefix_at(body, uri_start, &file) {
        let rest = uri_start + 7;
        assert(b.skip(uri_start as int).skip(7) =~= b.skip(rest as int));
        let slash = find_from(body, rest, 0x2f);
        if slash < len {
            assert(b.skip(rest as int).skip(slash - rest) =~= b.skip(slash as int));
            slash
        } else {
            rest
        }
    } else {
        uri_start
    }
}

pub(crate) fn range_is(s: &[u8], from: usize, to: usize, lit: &[u8]) -> (r: bool)
    requires
        from <= to <= s@.len(),
    ensures
        r == (s@.subrange(from as int, to as int) == lit@),
{
    if to - from != lit.len() {
        return false;
    }
    let mut i: usize = 0;
    while i < lit.len()
        invariant
            i <= lit@.len(),
            to - from == lit@.len(),
            from <= to <= s@.len(),
            forall|j: int| 0 <= j < i ==> s@[from + j] == lit@[j],
        decreases lit@.len() - i,
    {
        if s[from + i] != lit[i] {
            assert(s@.subrange(from as int, to as int)[i as int] != lit@[i as int]);
            return false;
        }
        i = i + 1;
    }
    assert(s@.subrange(from as int, to as int) =~= lit@);
    true
}

#[verifier::spinoff_prover]
#[verifier::rlimit(40)]
fn parse_osc133(body: &[u8], e0: usize) -> (r: Option<BlockEvent>)
    requires
        e0 <= body@.len(),
        e0 == body@.len() ==> fields(body@) == seq![body@],
        e0 < body@.len() ==> fields(body@) == seq![body@.subrange(0, e0 as int)] + fields(
            body@.skip(e0 + 1),
        ),
    ensures
        match r {
            Some(e) => osc133_event(fields(body@)) == Some(e@),
            None => osc133_event(fields(body@)) is None,
        },
{
    let ghost b = body@;
    let ghost f = fields(b);
    let len = body.len();
    if e0 == len {
        return None;
    }
    let e1 = find_from(body, e0 + 1, 0x3b);
    proof {
        lemma_fields_step(b, e0 + 1, e1 as int);
        assert(f[1] == b.subrange(e0 + 1, e1 as int));
        if e1 < len {
            lemma_fields_nonempty(b.skip(e1 + 1));
        }
        assert(e1 < len ==> f.len() >= 3);
        assert(e1 == len ==> f.len() == 2);
    }
    let a: [u8; 1] = [0x41];
    let c: [u8; 1] = [0x43];
    let d: [u8; 1] = [0x44];
    assert(a@ =~= seq![0x41u8]);
    assert(c@ =~= seq![0x43u8]);
    assert(d@ =~= seq![0x44u8]);
    if range_is(body, e0 + 1, e1, &a) {
        Some(BlockEvent::PromptStart)
    } else if range_is(body, e0 + 1, e1, &c) {
        Some(BlockEvent::CommandStart)
    } else if range_is(body, e0 + 1, e1, &d) {
        let exit = if e1 == len {
            None
        } else {
            let e2 = find_from(body, e1 + 1, 0x3b);
            proof {
                lemma_fields_step(b, e1 + 1, e2 as int);
                assert(f[2] == b.subrange(e1 + 1, e2 as int));
            }
            parse_i32_range(body, e1 + 1, e2)
        };
        Some(BlockEvent::CommandEnd { exit })
    } else {
        None
    }
}

/// Turns an OSC body (`133;A`, `133;D;0`, `7;file://host/path`, ...) into an
/// event; unsupported OSCs (such as a title `0;...`) give `None`.
#[verifier::spinoff_prover]
#[verifier::rlimit(40)]
fn parse_osc(body: &[u8]) -> (r: Option<BlockEvent>)
    ensures
        match r {
            Some(e) => osc_event(body@) == Some(e@),
            None => osc_event(body@) is None,
        },
{
    let ghost b = body@;
    if !utf8_valid(body) {
        return None;
    }
    let e0 = find_from(body, 0, 0x3b);
    proof {
        assert(b.skip(0) =~= b);
        lemma_fields_step(b, 0, e0 as int);
        assert(b.subrange(0, e0 as int) =~= b.take(e0 as int));
    }
    let ghost f = fields(b);
    assert(f[0] == b.subrange(0, e0 as int));
    let c133: [u8; 3] = [0x31, 0x33, 0x33];
    let c7: [u8; 1] = [0x37];
    assert(c133@ =~= seq![0x31u8, 0x33, 0x33]);
    assert(c7@ =~= seq![0x37u8]);
    if range_is(body, 0, e0, &c133) {
        parse_osc133(body, e0)
    } else if range_is(body, 0, e0, &c7) {
        let p = osc7_path_start(body);
        let decoded = percent_decode(body, p);
        let mut path = String::new();
        push_lossy(&mut path, decoded.as_slice());
        Some(BlockEvent::Cwd(path))
    } else {
        None
    }
}

/// Emits the collected plain bytes as one `Output` event (nothing when empty).
fn flush_out(out: &mut Vec<u8>, events: &mut Vec<BlockEvent>)
    ensures
        final(out)@ == Seq::<u8>::empty(),
        events_view(final(events)@) == events_view(old(events)@) + output_event(old(out)@),
{
    if out.len() > 0 {
        let mut taken: Vec<u8> = Vec::new();
        std::mem::swap(&mut taken, out);
        events.push(BlockEvent::Output(taken));
        assert(events_view(events@) =~= events_view(old(events)@) + output_event(old(out)@));
    } else {
        assert(events_view(events@) =~= events_view(old(events)@) + output_event(old(out)@));
    }
}

impl Default for OscScanner {
    fn default() -> (r: Self)
        ensures
            r@ == (ScanV { state: ScanState::Ground, osc: seq![] }),
    {
        OscScanner::new()
    }
}

impl OscScanner {
    pub fn new() -> (r: Self)
        ensures
            r@ == (ScanV { state: ScanState::Ground, osc: seq![] }),
    {
        OscScanner { state: ScanState::Ground, osc: Vec::new() }
    }

    /// One byte in the `Esc` state.
    fn esc_byte(&mut self, b: u8, out: &mut Vec<u8>)
        requires
            old(self).state == ScanState::Esc || old(self).state == ScanState::OscEsc,
        ensures
            final(self)@ == esc_step(old(self)@.osc, b).0,
            all_bytes(esc_step(old(self)@.osc, b).1),
            final(out)@ == old(out)@ + bytes_of(esc_step(old(self)@.osc, b).1),
    {
        let ghost items = esc_step(self@.osc, b).1;
        if b == 0x5d {
            self.state = ScanState::Osc;
            self.osc = Vec::new();
            assert(out@ =~= old(out)@ + bytes_of(items));
        } else if b == 0x1b {
            self.state = ScanState::Esc;
            out.push(0x1b);
            assert(items.drop_last() =~= Seq::<ScanItem>::empty());
            assert(bytes_of(items) =~= seq![0x1bu8]) by {
                reveal_with_fuel(bytes_of, 2);
            }
            assert(out@ =~= old(out)@ + bytes_of(items));
        } else {
            self.state = ScanState::Ground;
            out.push(0x1b);
            out.push(b);
            assert(items.drop_last().drop_last() =~= Seq::<ScanItem>::empty());
            assert(bytes_of(items) =~= seq![0x1bu8, b]) by {
                reveal_with_fuel(bytes_of, 3);
            }
            assert(out@ =~= old(out)@ + bytes_of(items));
        }
    }

    /// Processes a chunk of bytes and returns its events in order.
    pub fn process(&mut self, bytes: &[u8]) -> (events: Vec<BlockEvent>)
        ensures
            final(self)@ == scan(old(self)@, bytes@).0,
            events_view(events@) == group(scan(old(self)@, bytes@).1),
    {
        let ghost st0 = self@;
        let mut events: Vec<BlockEvent> = Vec::new();
        let mut out: Vec<u8> = Vec::new();
        let mut i: usize = 0;
        assert(bytes@.take(0) =~= Seq::<u8>::empty());
        while i < bytes.len()
            invariant
                i <= bytes@.len(),
                self@ == scan(st0, bytes@.take(i as int)).0,
                (events_view(events@), out@) == group_acc(scan(st0, bytes@.take(i as int)).1),
            decreases bytes@.len() - i,
        {
            let b = bytes[i];
            let ghost items0 = scan(st0, bytes@.take(i as int)).1;
            let ghost ev0 = events_view(events@);
            let ghost out0 = out@;
            let ghost sv = self@;
            proof {
                assert(bytes@.take(i + 1).drop_last() =~= bytes@.take(i as int));
                assert(bytes@.take(i + 1).last() == b);
            }
            let ghost step = scan_step(sv, b);
            assert(scan(st0, bytes@.take(i + 1)) == (step.0, items0 + step.1));
            match self.state {
                ScanState::Ground => {
                    if b == 0x1b {
                        self.state = ScanState::Esc;
                        assert(items0 + step.1 =~= items0);
                    } else {
                        out.push(b);
                        proof {
                            lemma_group_push(items0, ScanItem::Byte(b));
                            assert(items0 + step.1 =~= items0.push(ScanItem::Byte(b)));
                        }
                    }
                },
                ScanState::Esc => {
                    let ghost out_before = out@;
                    self.esc_byte(b, &mut out);
                    proof {
                        self.lemma_bytes_only(items0, step.1, out_before, out@);
                    }
                },
                ScanState::Osc => {
                    if b == 0x07 {
                        flush_out(&mut out, &mut events);
                        let ev = parse_osc(self.osc.as_slice());
                        let ghost e = osc_event(self.osc@);
                        match ev {
                            Some(x) => {
                                events.push(x);
                            },
                            None => {},
                        }
                        assert(events_view(events@) =~= ev0 + output_event(out0) + option_seq(e));
                        self.state = ScanState::Ground;
                        proof {
                            lemma_group_push(items0, ScanItem::Flush(e));
                            assert(items0 + step.1 =~= items0.push(ScanItem::Flush(e)));
                        }
                    } else if b == 0x1b {
                        self.state = ScanState::OscEsc;
                        assert(items0 + step.1 =~= items0);
                    } else {
                        self.osc.push(b);
                        assert(items0 + step.1 =~= items0);
                    }
                },
                ScanState::OscEsc => {
                    flush_out(&mut out, &mut events);
                    let ev = parse_osc(self.osc.as_slice());
                    let ghost e = osc_event(self.osc@);
                    match ev {
                        Some(x) => {
                            events.push(x);
                        },
                        None => {},
                    }
                    assert(events_view(events@) =~= ev0 + output_event(out0) + option_seq(e));
                    proof {
                        lemma_group_push(items0, ScanItem::Flush(e));
                    }
                    if b == 0x5c {
                        self.state = ScanState::Ground;
                        assert(items0 + step.1 =~= items0.push(ScanItem::Flush(e)));
                    } else {
                        let ghost out_before = out@;
                        self.esc_byte(b, &mut out);
                        proof {
                            let items1 = items0.push(ScanItem::Flush(e));
                            self.lemma_bytes_only(items1, esc_step(sv.osc, b).1, out_before, out@);
                            assert(items0 + step.1 =~= items1 + esc_step(sv.osc, b).1);
                        }
                    }
                },
            }
            i = i + 1;
        }
        assert(bytes@.take(i as int) =~= bytes@);
        flush_out(&mut out, &mut events);
        events
    }

    /// Items that are all plain bytes only extend the held-back output.
    proof fn lemma_bytes_only(&self, items: Seq<ScanItem>, more: Seq<ScanItem>, o1: Seq<u8>, o2: Seq<u8>)
        requires
            all_bytes(more),
            o2 == o1 + bytes_of(more),
            group_acc(items).1 == o1,
        ensures
            group_acc(items + more) == (group_acc(items).0, o2),
        decreases more.len(),
    {
        if more.len() == 0 {
            assert(items + more =~= items);
            assert(o2 =~= o1);
        } else {
            let m1 = more.drop_last();
            assert((items + more).drop_last() =~= items + m1);
            assert(all_bytes(m1)) by {
                assert forall|k: int| 0 <= k < m1.len() implies #[trigger] m1[k] is Byte by {
                    assert(m1[k] == more[k]);
                }
            }
            assert(more.last() is Byte);
            let o2p = o1 + bytes_of(m1);
            self.lemma_bytes_only(items, m1, o1, o2p);
            assert(o2 =~= o2p.push(more.last()->Byte_0));
        }
    }
}

/// The scanner keeps what it needs between chunks: scanning `a` and then
/// `b` from the state `a` left gives the state and the items of scanning
/// them as one chunk (so a sequence split across reads is still found).
pub proof fn law_scan_split(st: ScanV, a: Seq<u8>, b: Seq<u8>)
    ensures
        scan(st, a + b) == ({
            let ra = scan(st, a);
            let rb = scan(ra.0, b);
            (rb.0, ra.1 + rb.1)
        }),
    decreases b.len(),
{
    if b.len() == 0 {
        assert(a + b =~= a);
        assert(scan(st, a).1 + seq![] =~= scan(st, a).1);
    } else {
        let bd = b.drop_last();
        assert((a + b).drop_last() =~= a + bd);
        assert((a + b).last() == b.last());
        law_scan_split(st, a, bd);
        let ra = scan(st, a);
        let rb = scan(ra.0, bd);
        let s = scan_step(rb.0, b.last());
        assert(ra.1 + rb.1 + s.1 =~= ra.1 + (rb.1 + s.1));
    }
}

/// Output without ESC passes the idle scanner unchanged, byte for byte.
pub proof fn law_scan_plain(st: ScanV, bytes: Seq<u8>)
    requires
        st.state == ScanState::Ground,
        forall|i: int| 0 <= i < bytes.len() ==> bytes[i] != 0x1b,
    ensures
        scan(st, bytes).0 == st,
        scan(st, bytes).1 == bytes.map_values(|b: u8| ScanItem::Byte(b)),
    decreases bytes.len(),
{
    if bytes.len() > 0 {
        let d = bytes.drop_last();
        assert forall|i: int| 0 <= i < d.len() implies d[i] != 0x1b by {
            assert(d[i] == bytes[i]);
        }
        law_scan_plain(st, d);
        assert(bytes.map_values(|b: u8| ScanItem::Byte(b)) =~= d.map_values(|b: u8| ScanItem::Byte(b)).push(
            ScanItem::Byte(bytes.last()),
        ));
    }
}

/// An event added after `acc`, an `Output` joined to an `Output` before it.
pub open spec fn join_event(acc: Seq<BlockEventV>, e: BlockEventV) -> Seq<BlockEventV> {
    match e {
        BlockEventV::Output(b) => if acc.len() > 0 && acc.last() is Output {
            acc.drop_last().push(BlockEventV::Output(acc.last()->Output_0 + b))
        } else {
            acc.push(e)
        },
        _ => acc.push(e),
    }
}

/// The events added one by one after `acc` with `join_event`.
pub open spec fn join_all(acc: Seq<BlockEventV>, evs: Seq<BlockEventV>) -> Seq<BlockEventV>
    decreases evs.len(),
{
    if evs.len() == 0 {
        acc
    } else {
        join_event(join_all(acc, evs.drop_last()), evs.last())
    }
}

/// The events with every run of adjacent `Output`s joined into one.
pub open spec fn merge_outputs(evs: Seq<BlockEventV>) -> Seq<BlockEventV> {
    join_all(seq![], evs)
}

/// Whether no `Output` event is empty.
pub open spec fn no_empty_output(evs: Seq<BlockEventV>) -> bool {
    forall|k: int| 0 <= k < evs.len() ==> (#[trigger] evs[k] matches BlockEventV::Output(b) ==> b.len() > 0)
}

/// One scanner item added after `acc`, outputs joined.
pub open spec fn item_join(acc: Seq<BlockEventV>, item: ScanItem) -> Seq<BlockEventV> {
    match item {
        ScanItem::Byte(b) => join_event(acc, BlockEventV::Output(seq![b])),
        ScanItem::Flush(e) => join_all(acc, option_seq(e)),
    }
}

/// The items added one by one after `acc` with `item_join`.
pub open spec fn join_items(acc: Seq<BlockEventV>, items: Seq<ScanItem>) -> Seq<BlockEventV>
    decreases items.len(),
{
    if items.len() == 0 {
        acc
    } else {
        item_join(join_items(acc, items.drop_last()), items.last())
    }
}

proof fn lemma_join_all_add(acc: Seq<BlockEventV>, e: Seq<BlockEventV>, f: Seq<BlockEventV>)
    ensures
        join_all(acc, e + f) == join_all(join_all(acc, e), f),
    decreases f.len(),
{
    if f.len() == 0 {
        assert(e + f =~= e);
    } else {
        assert((e + f).drop_last() =~= e + f.drop_last());
        assert((e + f).last() == f.last());
        lemma_join_all_add(acc, e, f.drop_last());
    }
}

proof fn lemma_join_items_add(acc: Seq<BlockEventV>, i1: Seq<ScanItem>, i2: Seq<ScanItem>)
    ensures
        join_items(acc, i1 + i2) == join_items(join_items(acc, i1), i2),
    decreases i2.len(),
{
    if i2.len() == 0 {
        assert(i1 + i2 =~= i1);
    } else {
        assert((i1 + i2).drop_last() =~= i1 + i2.drop_last());
        assert((i1 + i2).last() == i2.last());
        lemma_join_items_add(acc, i1, i2.drop_last());
    }
}

proof fn lemma_join_one(acc: Seq<BlockEventV>, e: BlockEventV)
    ensures
        join_all(acc, seq![e]) == join_event(acc, e),
{
    assert(seq![e].drop_last() =~= Seq::<BlockEventV>::empty());
    assert(join_all(acc, seq![e].drop_last()) == acc);
    assert(seq![e].last() == e);
}

/// Joining the events of the grouping is joining the items one by one.
proof fn lemma_group_joined(acc: Seq<BlockEventV>, items: Seq<ScanItem>)
    ensures
        join_all(acc, group(items)) == join_items(acc, items),
    decreases items.len(),
{
    if items.len() == 0 {
        assert(group(items) =~= Seq::<BlockEventV>::empty());
    } else {
        let i = items.drop_last();
        assert(i.push(items.last()) =~= items);
        lemma_group_push(i, items.last());
        lemma_group_joined(acc, i);
        let e = group_acc(i).0;
        let h = group_acc(i).1;
        lemma_join_all_add(acc, e, output_event(h));
        let x = join_all(acc, e);
        match items.last() {
            ScanItem::Byte(b) => {
                lemma_join_all_add(acc, e, output_event(h.push(b)));
                lemma_join_one(x, BlockEventV::Output(h.push(b)));
                if h.len() == 0 {
                    assert(output_event(h) =~= Seq::<BlockEventV>::empty());
                    assert(h.push(b) =~= seq![b]);
                } else {
                    lemma_join_one(x, BlockEventV::Output(h));
                    let y = join_event(x, BlockEventV::Output(h));
                    if x.len() > 0 && x.last() is Output {
                        assert(x.last()->Output_0 + h + seq![b] =~= x.last()->Output_0 + h.push(b));
                        assert(y.drop_last() =~= x.drop_last());
                    } else {
                        assert(y.drop_last() =~= x);
                        assert(h + seq![b] =~= h.push(b));
                    }
                }
            },
            ScanItem::Flush(ev) => {
                let g = e + output_event(h) + option_seq(ev);
                assert(group(items) =~= g);
                lemma_join_all_add(acc, e + output_event(h), option_seq(ev));
            },
        }
    }
}

/// The scanner's events do not depend on where the stream was cut: the
/// events of `a` followed by those of `b` (from the state `a` left) are,
/// once adjacent `Output`s are joined, the events of `a + b` in one chunk.
pub proof fn law_scan_events_split(st: ScanV, a: Seq<u8>, b: Seq<u8>)
    ensures
        merge_outputs(group(scan(st, a).1) + group(scan(scan(st, a).0, b).1)) == merge_outputs(
            group(scan(st, a + b).1),
        ),
{
    let i1 = scan(st, a).1;
    let i2 = scan(scan(st, a).0, b).1;
    law_scan_split(st, a, b);
    lemma_group_joined(seq![], i1 + i2);
    lemma_join_items_add(seq![], i1, i2);
    lemma_join_all_add(seq![], group(i1), group(i2));
    lemma_group_joined(seq![], i1);
    lemma_group_joined(join_items(seq![], i1), i2);
}

/// Whether no finished OSC of the items carries an `Output` event.
pub open spec fn flushes_not_output(items: Seq<ScanItem>) -> bool {
    forall|k: int| 0 <= k < items.len() ==> !(#[trigger] items[k] matches ScanItem::Flush(Some(BlockEventV::Output(_))))
}

proof fn lemma_scan_flushes(st: ScanV, bytes: Seq<u8>)
    ensures
        flushes_not_output(scan(st, bytes).1),
    decreases bytes.len(),
{
    if bytes.len() > 0 {
        lemma_scan_flushes(st, bytes.drop_last());
        let r = scan(st, bytes.drop_last());
        let s = scan_step(r.0, bytes.last());
        let body = r.0.osc;
        assert(!(osc_event(body) matches Some(BlockEventV::Output(_))));
        assert(flushes_not_output(s.1));
        assert forall|k: int| 0 <= k < (r.1 + s.1).len() implies !(#[trigger] (r.1 + s.1)[k] matches ScanItem::Flush(Some(BlockEventV::Output(_)))) by {
            if k < r.1.len() {
                assert((r.1 + s.1)[k] == r.1[k]);
            } else {
                assert((r.1 + s.1)[k] == s.1[k - r.1.len()]);
            }
        }
    }
}

proof fn lemma_group_nonempty(items: Seq<ScanItem>)
    requires
        flushes_not_output(items),
    ensures
        no_empty_output(group_acc(items).0),
    decreases items.len(),
{
    if items.len() > 0 {
        let i = items.drop_last();
        assert forall|k: int| 0 <= k < i.len() implies !(#[trigger] i[k] matches ScanItem::Flush(Some(BlockEventV::Output(_)))) by {
            assert(i[k] == items[k]);
        }
        lemma_group_nonempty(i);
        let e = group_acc(i).0;
        let h = group_acc(i).1;
        assert(!(items[items.len() - 1] matches ScanItem::Flush(Some(BlockEventV::Output(_)))));
        match items.last() {
            ScanItem::Byte(b) => {},
            ScanItem::Flush(ev) => {
                let g = e + output_event(h) + option_seq(ev);
                assert forall|k: int| 0 <= k < g.len() implies (#[trigger] g[k] matches BlockEventV::Output(x) ==> x.len() > 0) by {
                    if k < e.len() {
                        assert(g[k] == e[k]);
                    } else if k < e.len() + output_event(h).len() {
                        assert(g[k] == output_event(h)[k - e.len()]);
                    } else {
                        assert(g[k] == option_seq(ev)[k - e.len() - output_event(h).len()]);
                    }
                }
            },
        }
    }
}

/// No call of the scanner returns an empty `Output` event.
pub proof fn law_scan_output_nonempty(st: ScanV, bytes: Seq<u8>)
    ensures
        no_empty_output(group(scan(st, bytes).1)),
{
    let items = scan(st, bytes).1;
    lemma_scan_flushes(st, bytes);
    lemma_group_nonempty(items);
    let e = group_acc(items).0;
    let o = output_event(group_acc(items).1);
    assert forall|k: int| 0 <= k < (e + o).len() implies (#[trigger] (e + o)[k] matches BlockEventV::Output(x) ==> x.len() > 0) by {
        if k < e.len() {
            assert((e + o)[k] == e[k]);
        } else {
            assert((e + o)[k] == o[k - e.len()]);
        }
    }
}

/// ASCII upper case letters made lower case; other bytes as they are.
pub open spec fn ascii_lower(b: u8) -> u8 {
    if 0x41 <= b <= 0x5a {
        (b + 0x20) as u8
    } else {
        b
    }
}

/// The upper-case hexadecimal digit of `d` (below 16).
pub open spec fn hex_digit_upper(d: int) -> u8 {
    if d < 10 {
        (0x30 + d) as u8
    } else {
        (0x41 + d - 10) as u8
    }
}

/// The lower-case hexadecimal digit of `d` (below 16).
pub open spec fn hex_digit_lower(d: int) -> u8 {
    if d < 10 {
        (0x30 + d) as u8
    } else {
        (0x61 + d - 10) as u8
    }
}

/// Percent escapes ignore the case of their hexadecimal digits.
pub proof fn law_percent_case_blind(a: u8, b: u8)
    ensures
        hex_pair(a, b) == hex_pair(ascii_lower(a), ascii_lower(b)),
{
}

/// Every byte written as `%XX`, in upper- or lower-case hexadecimal, decodes
/// back to that byte.
pub proof fn law_percent_roundtrip(x: u8)
    ensures
        percent_decoded(seq![0x25u8, hex_digit_upper((x / 16) as int), hex_digit_upper((x % 16) as int)]) == seq![x],
        percent_decoded(seq![0x25u8, hex_digit_lower((x / 16) as int), hex_digit_lower((x % 16) as int)]) == seq![x],
{
    let hi = x / 16;
    let lo = x % 16;
    assert(hi * 16 + lo == x);
    let u = seq![0x25u8, hex_digit_upper(hi as int), hex_digit_upper(lo as int)];
    let l = seq![0x25u8, hex_digit_lower(hi as int), hex_digit_lower(lo as int)];
    assert(hex_val(hex_digit_upper(hi as int)) == Some(hi as nat));
    assert(hex_val(hex_digit_upper(lo as int)) == Some(lo as nat));
    assert(hex_val(hex_digit_lower(hi as int)) == Some(hi as nat));
    assert(hex_val(hex_digit_lower(lo as int)) == Some(lo as nat));
    assert(hex_digit_upper(hi as int) != 0x2b);
    assert(hex_digit_lower(hi as int) != 0x2b);
    assert(hex_pair(u[1], u[2]) == Some(x));
    assert(hex_pair(l[1], l[2]) == Some(x));
    assert(u.skip(3) =~= Seq::<u8>::empty());
    assert(l.skip(3) =~= Seq::<u8>::empty());
    assert(percent_decoded(u.skip(3)) == Seq::<u8>::empty());
    assert(percent_decoded(l.skip(3)) == Seq::<u8>::empty());
    assert(seq![x] + Seq::<u8>::empty() =~= seq![x]);
}

} // verus!
