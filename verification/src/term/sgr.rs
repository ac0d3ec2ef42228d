//! `SgrConverter`: interprets SGR colours and turns output bytes into
//! coloured text spans, a lone carriage return and alternate-screen switches.
use vstd::prelude::*;
use crate::num::{parse_i32, parse_i32_range};
use crate::state::{OutputColor, OutputSpan, SpanV, spans_view};
use crate::term::osc::{fields, find_from, lemma_fields_step, option_seq, range_is};
use crate::term::session::spans_text;
use crate::text::{lemma_partial_valid, utf8_ok, lemma_lossy_split, lemma_partial_split, lossy_decode, partial_decode, push_char, push_lossy, push_partial};

verus! {

// ---------------------------------------------------------------------------

/// What the converter reports: coloured text, a lone carriage return (the
/// start of a line overwrite) and alternate-screen switches.
#[derive(Debug, Clone, PartialEq, Eq)]
pub enum SgrEvent {
    /// A list of text spans.
    Spans(Vec<OutputSpan>),
    /// A lone `\r` (not part of CRLF): go back to the start of the line.
    CarriageReturn,
    /// Alternate screen: `true` entering (`h`), `false` leaving (`l`).
    AltScreen(bool),
}

pub enum SgrEventV {
    Spans(Seq<SpanV>),
    CarriageReturn,
    AltScreen(bool),
}

impl View for SgrEvent {
    type V = SgrEventV;

    open spec fn view(&self) -> SgrEventV {
        match self {
            SgrEvent::Spans(v) => SgrEventV::Spans(spans_view(v@)),
            SgrEvent::CarriageReturn => SgrEventV::CarriageReturn,
            SgrEvent::AltScreen(b) => SgrEventV::AltScreen(*b),
        }
    }
}

pub open spec fn sgr_events_view(v: Seq<SgrEvent>) -> Seq<SgrEventV> {
    v.map_values(|e: SgrEvent| e@)
}

/// Where the converter stands inside an escape sequence.
#[derive(Clone, Copy, PartialEq, Eq, Structural, Debug)]
pub enum EscState {
    Text,
    /// ESC seen.
    Esc,
    /// `ESC [` seen: collecting CSI parameters.
    Csi,
}

/// Turns output bytes into coloured spans, interpreting SGR colour codes.
///
/// The colour, an unfinished escape, a character cut by the end of a chunk
/// and a `\r` at the very end of a chunk carry over to the next chunk.
pub struct SgrConverter {
    color: OutputColor,
    esc: EscState,
    /// Parameter bytes of the CSI being read.
    params: Vec<u8>,
    /// An intermediate byte (0x20..=0x2F) was seen in this CSI; such a
    /// sequence is never SGR even when it ends in `m`.
    has_intermediate: bool,
    /// Bytes of a UTF-8 character cut by the end of the previous chunk.
    pending: Vec<u8>,
    /// The previous chunk ended in `\r`: the next byte tells CRLF from a lone CR.
    cr_pending: bool,
}

/// Mathematical form of the converter.
pub struct SgrV {
    pub color: OutputColor,
    pub esc: EscState,
    pub params: Seq<u8>,
    pub has_intermediate: bool,
    pub pending: Seq<u8>,
    pub cr_pending: bool,
}

impl View for SgrConverter {
    type V = SgrV;

    closed spec fn view(&self) -> SgrV {
        SgrV {
            color: self.color,
            esc: self.esc,
            params: self.params@,
            has_intermediate: self.has_intermediate,
            pending: self.pending@,
            cr_pending: self.cr_pending,
        }
    }
}

/// A unit of the converter's output before grouping into events.
pub enum SgrItem {
    /// Text in one colour.
    Text(Seq<char>, OutputColor),
    /// A lone carriage return.
    Cr,
    /// An alternate-screen switch.
    Alt(bool),
}

/// The characters `cs`, all in colour `color`.
pub open spec fn colored(cs: Seq<char>, color: OutputColor) -> Seq<SgrItem> {
    seq![SgrItem::Text(cs, color)]
}

/// The colour of a 256-colour palette index; only the basic colours map.
pub open spec fn ansi256_color(n: i32) -> OutputColor {
    if n == 1 || n == 9 {
        OutputColor::Rust
    } else if n == 2 || n == 10 {
        OutputColor::Sage
    } else if n == 3 || n == 11 {
        OutputColor::Amber
    } else if n == 4 || n == 12 || n == 6 || n == 14 {
        OutputColor::Azure
    } else if n == 5 || n == 13 {
        OutputColor::Plum
    } else if n == 8 {
        OutputColor::Dim
    } else {
        OutputColor::Default
    }
}

/// The numbers among the `;`-separated parameters (others are skipped).
pub open spec fn parse_codes(f: Seq<Seq<u8>>) -> Seq<i32>
    decreases f.len(),
{
    if f.len() == 0 {
        seq![]
    } else {
        option_seq(parse_i32(f[0])) + parse_codes(f.drop_first())
    }
}

/// One SGR code at index `i`: the new colour and the index of the next code.
pub open spec fn sgr_code(color: OutputColor, codes: Seq<i32>, i: int) -> (OutputColor, int) {
    let c = codes[i];
    if c == 0 || c == 30 || c == 37 || c == 39 || c == 97 {
        (OutputColor::Default, i + 1)
    } else if c == 2 || c == 90 {
        (OutputColor::Dim, i + 1)
    } else if c == 31 || c == 91 {
        (OutputColor::Rust, i + 1)
    } else if c == 32 || c == 92 {
        (OutputColor::Sage, i + 1)
    } else if c == 33 || c == 93 {
        (OutputColor::Amber, i + 1)
    } else if c == 34 || c == 94 || c == 36 || c == 96 {
        (OutputColor::Azure, i + 1)
    } else if c == 35 || c == 95 {
        (OutputColor::Plum, i + 1)
    } else if c == 38 && i + 1 < codes.len() && codes[i + 1] == 5 {
        (ansi256_color(if i + 2 < codes.len() { codes[i + 2] } else { -1i32 }), i + 3)
    } else if c == 38 && i + 1 < codes.len() && codes[i + 1] == 2 {
        (OutputColor::Default, i + 5)
    } else if c == 48 && i + 1 < codes.len() && codes[i + 1] == 5 {
        (color, i + 3)
    } else if c == 48 && i + 1 < codes.len() && codes[i + 1] == 2 {
        (color, i + 5)
    } else {
        (color, i + 1)
    }
}

/// The colour after the SGR codes from index `i` on.
pub open spec fn sgr_codes_from(color: OutputColor, codes: Seq<i32>, i: int) -> OutputColor
    decreases codes.len() - i,
{
    if i < 0 || i >= codes.len() {
        color
    } else {
        let r = sgr_code(color, codes, i);
        if r.1 >= codes.len() {
            r.0
        } else {
            sgr_codes_from(r.0, codes, r.1)
        }
    }
}

/// The foreground colour after an SGR sequence with these parameter bytes
/// (`31`, `1;32`, `38;5;1`, ...); backgrounds and attributes are ignored.
pub open spec fn apply_sgr_spec(color: OutputColor, params: Seq<u8>) -> OutputColor {
    if params.len() == 0 {
        OutputColor::Default
    } else {
        sgr_codes_from(color, parse_codes(fields(params)), 0)
    }
}

/// Whether any `;`-separated field is `1049`, `1047` or `47`.
pub open spec fn has_alt_field(f: Seq<Seq<u8>>) -> bool {
    exists|k: int|
        0 <= k < f.len() && (f[k] == seq![0x31u8, 0x30, 0x34, 0x39] || f[k] == seq![
            0x31u8,
            0x30,
            0x34,
            0x37,
        ] || f[k] == seq![0x34u8, 0x37])
}

/// An alternate-screen CSI: parameters `?` followed by a list holding 1049,
/// 1047 or 47; the result tells entering (`h`) from leaving.
pub open spec fn alt_screen_of(params: Seq<u8>, terminator: u8) -> Option<bool> {
    if params.len() > 0 && params[0] == 0x3f && has_alt_field(fields(params.drop_first())) {
        Some(terminator == 0x68)
    } else {
        None
    }
}

/// One byte in the `Text` state (no carriage return pending).
pub open spec fn text_byte(st: SgrV, b: u8) -> (SgrV, Seq<SgrItem>) {
    let flushed = SgrV { pending: seq![], ..st };
    let out = colored(lossy_decode(st.pending), st.color);
    if b == 0x1b {
        (SgrV { esc: EscState::Esc, ..flushed }, out)
    } else if b == 0x0d {
        (SgrV { cr_pending: true, ..flushed }, out)
    } else if b == 0x07 {
        (flushed, out)
    } else {
        (SgrV { pending: st.pending.push(b), ..st }, seq![])
    }
}

/// One byte of the converter.
pub open spec fn sgr_step(st: SgrV, b: u8) -> (SgrV, Seq<SgrItem>) {
    match st.esc {
        EscState::Text => if st.cr_pending {
            if b == 0x0a {
                (SgrV { cr_pending: false, ..st }, colored(seq!['\n'], st.color))
            } else {
                let r = text_byte(SgrV { cr_pending: false, ..st }, b);
                (r.0, seq![SgrItem::Cr] + r.1)
            }
        } else {
            text_byte(st, b)
        },
        EscState::Esc => if b == 0x5b {
            (SgrV { esc: EscState::Csi, params: seq![], has_intermediate: false, ..st }, seq![])
        } else {
            (SgrV { esc: EscState::Text, ..st }, seq![])
        },
        EscState::Csi => if 0x40 <= b <= 0x7e {
            let done = SgrV { esc: EscState::Text, params: seq![], has_intermediate: false, ..st };
            if b == 0x6d && !st.has_intermediate {
                (
                    SgrV { color: apply_sgr_spec(st.color, st.params), pending: seq![], ..done },
                    colored(lossy_decode(st.pending), st.color),
                )
            } else if (b == 0x68 || b == 0x6c) && !st.has_intermediate && alt_screen_of(
                st.params,
                b,
            ) is Some {
                (
                    SgrV { pending: seq![], ..done },
                    colored(lossy_decode(st.pending), st.color) + seq![
                        SgrItem::Alt(alt_screen_of(st.params, b)->0),
                    ],
                )
            } else {
                (done, seq![])
            }
        } else if 0x20 <= b <= 0x2f {
            (SgrV { has_intermediate: true, ..st }, seq![])
        } else if 0x30 <= b <= 0x3f {
            (SgrV { params: st.params.push(b), ..st }, seq![])
        } else {
            (SgrV { esc: EscState::Text, params: seq![], has_intermediate: false, ..st }, seq![])
        },
    }
}

/// The converter run over `bytes`, byte by byte.
pub open spec fn sgr_run(st: SgrV, bytes: Seq<u8>) -> (SgrV, Seq<SgrItem>)
    decreases bytes.len(),
{
    if bytes.len() == 0 {
        (st, seq![])
    } else {
        let r = sgr_run(st, bytes.drop_last());
        let s = sgr_step(r.0, bytes.last());
        (s.0, r.1 + s.1)
    }
}

/// End of a chunk: the complete characters of `pending` come out, a cut one stays.
pub open spec fn chunk_end(st: SgrV) -> (SgrV, Seq<SgrItem>) {
    let p = partial_decode(st.pending);
    (SgrV { pending: p.1, ..st }, colored(p.0, st.color))
}

/// `convert` on a chunk: state after it and its items. A carriage return
/// pending from the previous chunk is reported at once when the chunk is
/// empty.
#[verifier::opaque]
pub open spec fn sgr_convert(st: SgrV, bytes: Seq<u8>) -> (SgrV, Seq<SgrItem>) {
    if bytes.len() == 0 && st.cr_pending {
        let e = chunk_end(SgrV { cr_pending: false, ..st });
        (e.0, seq![SgrItem::Cr] + e.1)
    } else {
        let r = sgr_run(st, bytes);
        let e = chunk_end(r.0);
        (e.0, r.1 + e.1)
    }
}

/// Adds one character to a list of spans: it joins the last span when the
/// colours agree, else starts a new one.
pub open spec fn span_push(spans: Seq<SpanV>, c: char, color: OutputColor) -> Seq<SpanV> {
    if spans.len() > 0 && spans.last().color == color {
        spans.drop_last().push(SpanV { color, text: spans.last().text.push(c) })
    } else {
        spans.push(SpanV { color, text: seq![c] })
    }
}

/// A `Spans` event for the spans, none when there are none.
pub open spec fn spans_event(spans: Seq<SpanV>) -> Seq<SgrEventV> {
    if spans.len() == 0 {
        seq![]
    } else {
        seq![SgrEventV::Spans(spans)]
    }
}

pub open spec fn sgr_group_step(acc: (Seq<SgrEventV>, Seq<SpanV>), item: SgrItem) -> (
    Seq<SgrEventV>,
    Seq<SpanV>,
) {
    match item {
        SgrItem::Text(cs, color) => (acc.0, push_text(acc.1, cs, color)),
        SgrItem::Cr => (acc.0 + spans_event(acc.1) + seq![SgrEventV::CarriageReturn], seq![]),
        SgrItem::Alt(b) => (acc.0 + spans_event(acc.1) + seq![SgrEventV::AltScreen(b)], seq![]),
    }
}

/// Items grouped into events so far, and the spans not yet emitted.
pub open spec fn sgr_group_acc(items: Seq<SgrItem>) -> (Seq<SgrEventV>, Seq<SpanV>)
    decreases items.len(),
{
    if items.len() == 0 {
        (seq![], seq![])
    } else {
        sgr_group_step(sgr_group_acc(items.drop_last()), items.last())
    }
}

/// The events of a list of items: text between two breaks forms one
/// `Spans` event, whose spans are the runs of equal colour.
#[verifier::opaque]
pub open spec fn sgr_group(items: Seq<SgrItem>) -> Seq<SgrEventV> {
    sgr_group_acc(items).0 + spans_event(sgr_group_acc(items).1)
}

/// Adds the characters of `t`, all in one colour, to a list of spans.
pub open spec fn push_text(spans: Seq<SpanV>, t: Seq<char>, color: OutputColor) -> Seq<SpanV>
    decreases t.len(),
{
    if t.len() == 0 {
        spans
    } else {
        span_push(push_text(spans, t.drop_last(), color), t.last(), color)
    }
}

/// `push_text` in one step: the text joins the last span or forms a new one.
pub open spec fn push_text_closed(spans: Seq<SpanV>, t: Seq<char>, color: OutputColor) -> Seq<
    SpanV,
> {
    if t.len() == 0 {
        spans
    } else if spans.len() > 0 && spans.last().color == color {
        spans.drop_last().push(SpanV { color, text: spans.last().text + t })
    } else {
        spans.push(SpanV { color, text: t })
    }
}

pub proof fn lemma_push_text_closed(spans: Seq<SpanV>, t: Seq<char>, color: OutputColor)
    ensures
        push_text(spans, t, color) == push_text_closed(spans, t, color),
    decreases t.len(),
{
    if t.len() > 0 {
        let t1 = t.drop_last();
        lemma_push_text_closed(spans, t1, color);
        if t1.len() == 0 {
            assert(t =~= seq![t.last()]);
            if spans.len() > 0 && spans.last().color == color {
                assert(spans.last().text + t =~= spans.last().text.push(t.last()));
            }
        } else {
            let p = push_text_closed(spans, t1, color);
            assert(p.len() > 0 && p.last().color == color);
            if spans.len() > 0 && spans.last().color == color {
                assert(spans.last().text + t =~= (spans.last().text + t1).push(t.last()));
                assert(p.drop_last() =~= spans.drop_last());
            } else {
                assert(t =~= t1.push(t.last()));
                assert(p.drop_last() =~= spans);
            }
        }
    }
}

pub proof fn lemma_push_text_concat(spans: Seq<SpanV>, a: Seq<char>, b: Seq<char>, color: OutputColor)
    ensures
        push_text(spans, a + b, color) == push_text(push_text(spans, a, color), b, color),
    decreases b.len(),
{
    if b.len() == 0 {
        assert(a + b =~= a);
    } else {
        lemma_push_text_concat(spans, a, b.drop_last(), color);
        assert((a + b).drop_last() =~= a + b.drop_last());
        assert((a + b).last() == b.last());
    }
}

pub proof fn lemma_sgr_group_push(items: Seq<SgrItem>, x: SgrItem)
    ensures
        sgr_group_acc(items.push(x)) == sgr_group_step(sgr_group_acc(items), x),
{
    assert(items.push(x).drop_last() =~= items);
}

/// The grouping continued from `acc` over more items.
pub open spec fn sgr_group_from(acc: (Seq<SgrEventV>, Seq<SpanV>), items: Seq<SgrItem>) -> (
    Seq<SgrEventV>,
    Seq<SpanV>,
)
    decreases items.len(),
{
    if items.len() == 0 {
        acc
    } else {
        sgr_group_step(sgr_group_from(acc, items.drop_last()), items.last())
    }
}

pub proof fn lemma_sgr_group_concat(a: Seq<SgrItem>, b: Seq<SgrItem>)
    ensures
        sgr_group_acc(a + b) == sgr_group_from(sgr_group_acc(a), b),
    decreases b.len(),
{
    if b.len() == 0 {
        assert(a + b =~= a);
    } else {
        lemma_sgr_group_concat(a, b.drop_last());
        assert((a + b).drop_last() =~= a + b.drop_last());
    }
}

pub proof fn lemma_group_from_one(acc: (Seq<SgrEventV>, Seq<SpanV>), x: SgrItem)
    ensures
        sgr_group_from(acc, seq![x]) == sgr_group_step(acc, x),
{
    assert(seq![x].drop_last() =~= Seq::<SgrItem>::empty());
    assert(sgr_group_from(acc, seq![x].drop_last()) == acc);
}

pub proof fn lemma_group_from_two(acc: (Seq<SgrEventV>, Seq<SpanV>), x: SgrItem, y: SgrItem)
    ensures
        sgr_group_from(acc, seq![x, y]) == sgr_group_step(sgr_group_step(acc, x), y),
{
    assert(seq![x, y].drop_last() =~= seq![x]);
    lemma_group_from_one(acc, x);
}

fn ansi256_to_color(n: i32) -> (c: OutputColor)
    ensures
        c == ansi256_color(n),
{
    if n == 1 || n == 9 {
        OutputColor::Rust
    } else if n == 2 || n == 10 {
        OutputColor::Sage
    } else if n == 3 || n == 11 {
        OutputColor::Amber
    } else if n == 4 || n == 12 || n == 6 || n == 14 {
        OutputColor::Azure
    } else if n == 5 || n == 13 {
        OutputColor::Plum
    } else if n == 8 {
        OutputColor::Dim
    } else {
        OutputColor::Default
    }
}

proof fn lemma_codes_step(p: Seq<u8>, start: int, e: int, before: Seq<i32>, now: Seq<i32>)
    requires
        0 <= start <= e <= p.len(),
        e == p.len() ==> fields(p.skip(start)) == seq![p.skip(start)],
        e < p.len() ==> fields(p.skip(start)) == seq![p.subrange(start, e)] + fields(p.skip(e + 1)),
        now == before + option_seq(parse_i32(p.subrange(start, e))),
    ensures
        e == p.len() ==> now == before + parse_codes(fields(p.skip(start))),
        e < p.len() ==> now + parse_codes(fields(p.skip(e + 1))) == before + parse_codes(
            fields(p.skip(start)),
        ),
{
    let f = fields(p.skip(start));
    if e == p.len() {
        assert(p.subrange(start, e) =~= p.skip(start));
        assert(f.drop_first() =~= Seq::<Seq<u8>>::empty());
        assert(parse_codes(f.drop_first()) == Seq::<i32>::empty());
        assert(now =~= before + parse_codes(f));
    } else {
        assert(f.drop_first() =~= fields(p.skip(e + 1)));
        assert(now + parse_codes(fields(p.skip(e + 1))) =~= before + parse_codes(f));
    }
}

/// The numbers among the `;`-separated parameter bytes.
fn sgr_codes(params: &[u8]) -> (codes: Vec<i32>)
    ensures
        codes@ == parse_codes(fields(params@)),
{
    let ghost p = params@;
    let mut codes: Vec<i32> = Vec::new();
    let mut start: usize = 0;
    let mut done = false;
    assert(p.skip(0) =~= p);
    while !done
        invariant
            start <= p.len(),
            params@ == p,
            !done ==> codes@ + parse_codes(fields(p.skip(start as int))) == parse_codes(fields(p)),
            done ==> codes@ == parse_codes(fields(p)),
        decreases p.len() - start, if done { 0int } else { 1int },
    {
        let e = find_from(params, start, 0x3b);
        proof {
            lemma_fields_step(p, start as int, e as int);
        }
        let v = parse_i32_range(params, start, e);
        let ghost before = codes@;
        match v {
            Some(x) => {
                codes.push(x);
            },
            None => {},
        }
        assert(codes@ =~= before + option_seq(parse_i32(p.subrange(start as int, e as int))));
        proof {
            lemma_codes_step(p, start as int, e as int, before, codes@);
        }
        if e == params.len() {
            done = true;
        } else {
            start = e + 1;
        }
    }
    codes
}

fn sgr_code_exec(color: OutputColor, codes: &Vec<i32>, i: usize) -> (r: (OutputColor, usize))
    requires
        i < codes@.len(),
    ensures
        r.0 == sgr_code(color, codes@, i as int).0,
        i < r.1 <= codes@.len(),
        r.1 < codes@.len() ==> r.1 as int == sgr_code(color, codes@, i as int).1,
        r.1 == codes@.len() ==> sgr_code(color, codes@, i as int).1 >= codes@.len(),
{
    let c = codes[i];
    let len = codes.len();
    let rest = len - i;
    let step = |k: usize| -> (n: usize)
        requires
            1 <= k <= 5,
        ensures
            n == if rest > k { (i + k) as usize } else { len },
    { if rest > k { i + k } else { len } };
    if c == 0 || c == 30 || c == 37 || c == 39 || c == 97 {
        (OutputColor::Default, step(1))
    } else if c == 2 || c == 90 {
        (OutputColor::Dim, step(1))
    } else if c == 31 || c == 91 {
        (OutputColor::Rust, step(1))
    } else if c == 32 || c == 92 {
        (OutputColor::Sage, step(1))
    } else if c == 33 || c == 93 {
        (OutputColor::Amber, step(1))
    } else if c == 34 || c == 94 || c == 36 || c == 96 {
        (OutputColor::Azure, step(1))
    } else if c == 35 || c == 95 {
        (OutputColor::Plum, step(1))
    } else if c == 38 && rest > 1 && codes[i + 1] == 5 {
        let n = if rest > 2 {
            codes[i + 2]
        } else {
            -1
        };
        (ansi256_to_color(n), step(3))
    } else if c == 38 && rest > 1 && codes[i + 1] == 2 {
        (OutputColor::Default, step(5))
    } else if c == 48 && rest > 1 && codes[i + 1] == 5 {
        (color, step(3))
    } else if c == 48 && rest > 1 && codes[i + 1] == 2 {
        (color, step(5))
    } else {
        (color, step(1))
    }
}

/// The foreground colour after an SGR sequence with these parameters.
fn apply_sgr(current: OutputColor, params: &[u8]) -> (c: OutputColor)
    ensures
        c == apply_sgr_spec(current, params@),
{
    if params.len() == 0 {
        return OutputColor::Default;
    }
    let codes = sgr_codes(params);
    let mut color = current;
    let mut i: usize = 0;
    while i < codes.len()
        invariant
            codes@ == parse_codes(fields(params@)),
            params@.len() > 0,
            sgr_codes_from(color, codes@, i as int) == apply_sgr_spec(current, params@),
        decreases codes@.len() - i,
    {
        let r = sgr_code_exec(color, &codes, i);
        color = r.0;
        i = r.1;
    }
    color
}

pub open spec fn is_alt_lit(f: Seq<u8>) -> bool {
    f == seq![0x31u8, 0x30, 0x34, 0x39] || f == seq![0x31u8, 0x30, 0x34, 0x37] || f == seq![
        0x34u8,
        0x37,
    ]
}

proof fn lemma_has_alt_cons(f: Seq<Seq<u8>>)
    requires
        f.len() > 0,
    ensures
        has_alt_field(f) == (is_alt_lit(f[0]) || has_alt_field(f.drop_first())),
{
    if has_alt_field(f) {
        let k = choose|k: int|
            0 <= k < f.len() && (f[k] == seq![0x31u8, 0x30, 0x34, 0x39] || f[k] == seq![
                0x31u8,
                0x30,
                0x34,
                0x37,
            ] || f[k] == seq![0x34u8, 0x37]);
        if k > 0 {
            assert(f.drop_first()[k - 1] == f[k]);
        }
    }
    if has_alt_field(f.drop_first()) {
        let k = choose|k: int|
            0 <= k < f.drop_first().len() && (f.drop_first()[k] == seq![0x31u8, 0x30, 0x34, 0x39]
                || f.drop_first()[k] == seq![0x31u8, 0x30, 0x34, 0x37] || f.drop_first()[k]
                == seq![0x34u8, 0x37]);
        assert(f[k + 1] == f.drop_first()[k]);
    }
    if is_alt_lit(f[0]) {
        assert(0 <= 0 < f.len());
    }
}

/// An alternate-screen CSI (`?1049h`, `?47l`, ...): `Some(true)` entering,
/// `Some(false)` leaving, `None` for any other private mode.
fn detect_alt_screen(params: &[u8], terminator: u8) -> (r: Option<bool>)
    ensures
        r == alt_screen_of(params@, terminator),
{
    let ghost p = params@;
    if params.len() == 0 || params[0] != 0x3f {
        return None;
    }
    let ghost q = p.drop_first();
    let l1049: [u8; 4] = [0x31, 0x30, 0x34, 0x39];
    let l1047: [u8; 4] = [0x31, 0x30, 0x34, 0x37];
    let l47: [u8; 2] = [0x34, 0x37];
    assert(l1049@ =~= seq![0x31u8, 0x30, 0x34, 0x39]);
    assert(l1047@ =~= seq![0x31u8, 0x30, 0x34, 0x37]);
    assert(l47@ =~= seq![0x34u8, 0x37]);
    let mut start: usize = 1;
    assert(p.skip(1) =~= q);
    loop
        invariant
            1 <= start <= p.len(),
            params@ == p,
            p.len() > 0 && p[0] == 0x3f,
            q == p.drop_first(),
            l1049@ == seq![0x31u8, 0x30, 0x34, 0x39],
            l1047@ == seq![0x31u8, 0x30, 0x34, 0x37],
            l47@ == seq![0x34u8, 0x37],
            has_alt_field(fields(q)) == has_alt_field(fields(p.skip(start as int))),
        decreases p.len() - start,
    {
        let e = find_from(params, start, 0x3b);
        proof {
            lemma_fields_step(p, start as int, e as int);
            crate::term::osc::lemma_fields_nonempty(p.skip(start as int));
            lemma_has_alt_cons(fields(p.skip(start as int)));
        }
        let ghost f = fields(p.skip(start as int));
        let hit = range_is(params, start, e, &l1049) || range_is(params, start, e, &l1047)
            || range_is(params, start, e, &l47);
        if hit {
            return Some(terminator == 0x68);
        }
        if e == params.len() {
            assert(f.drop_first().len() == 0);
            return None;
        }
        assert(f.drop_first() =~= fields(p.skip(e + 1)));
        start = e + 1;
    }
}

/// The grouping state that the converter's locals stand for: the events so
/// far, and the spans with the text buffer (in the current colour) joined.
pub open spec fn acc_of(events: Seq<SgrEvent>, spans: Seq<OutputSpan>, buf: Seq<char>, color: OutputColor) -> (
    Seq<SgrEventV>,
    Seq<SpanV>,
) {
    (sgr_events_view(events), push_text(spans_view(spans), buf, color))
}

/// Moves the buffered text into the spans: it joins the last span when the
/// colours agree, else becomes a new span.
fn push_span(spans: &mut Vec<OutputSpan>, buf: &mut String, color: OutputColor)
    ensures
        spans_view(final(spans)@) == push_text(spans_view(old(spans)@), old(buf)@, color),
        final(buf)@ == Seq::<char>::empty(),
{
    proof {
        lemma_push_text_closed(spans_view(spans@), buf@, color);
    }
    if buf.as_str().is_empty() {
        return;
    }
    let mut text = String::new();
    std::mem::swap(&mut text, buf);
    let n = spans.len();
    if n > 0 && spans[n - 1].color == color {
        let mut last = spans.pop().unwrap();
        last.text.append(text.as_str());
        spans.push(last);
        assert(spans_view(spans@) =~= push_text_closed(spans_view(old(spans)@), old(buf)@, color));
    } else {
        spans.push(OutputSpan { color, text });
        assert(spans_view(spans@) =~= push_text_closed(spans_view(old(spans)@), old(buf)@, color));
    }
}

/// Emits the spans as one `Spans` event (nothing when there are none).
fn flush_spans(events: &mut Vec<SgrEvent>, spans: &mut Vec<OutputSpan>)
    ensures
        sgr_events_view(final(events)@) == sgr_events_view(old(events)@) + spans_event(
            spans_view(old(spans)@),
        ),
        final(spans)@ == Seq::<OutputSpan>::empty(),
{
    if spans.len() > 0 {
        let mut taken: Vec<OutputSpan> = Vec::new();
        std::mem::swap(&mut taken, spans);
        events.push(SgrEvent::Spans(taken));
    }
    assert(sgr_events_view(events@) =~= sgr_events_view(old(events)@) + spans_event(
        spans_view(old(spans)@),
    ));
}

/// Ends a segment of text with a break event (`\r` or an alternate-screen switch).
fn push_break(
    events: &mut Vec<SgrEvent>,
    spans: &mut Vec<OutputSpan>,
    buf: &mut String,
    color: OutputColor,
    ev: SgrEvent,
)
    requires
        ev is CarriageReturn || ev is AltScreen,
    ensures
        acc_of(final(events)@, final(spans)@, final(buf)@, color) == sgr_group_step(
            acc_of(old(events)@, old(spans)@, old(buf)@, color),
            if ev is CarriageReturn {
                SgrItem::Cr
            } else {
                SgrItem::Alt(ev->AltScreen_0)
            },
        ),
        final(buf)@ == Seq::<char>::empty(),
        final(spans)@ == Seq::<OutputSpan>::empty(),
{
    let ghost e0 = sgr_events_view(events@);
    push_span(spans, buf, color);
    flush_spans(events, spans);
    let ghost e1 = sgr_events_view(events@);
    events.push(ev);
    assert(sgr_events_view(events@) =~= e1.push(ev@));
    assert(push_text(spans_view(spans@), buf@, color) =~= Seq::<SpanV>::empty()) by {
        assert(spans_view(spans@) =~= Seq::<SpanV>::empty());
    }
}

impl Default for SgrConverter {
    fn default() -> (r: Self)
        ensures
            r@ == (SgrV {
                color: OutputColor::Default,
                esc: EscState::Text,
                params: seq![],
                has_intermediate: false,
                pending: seq![],
                cr_pending: false,
            }),
    {
        SgrConverter::new()
    }
}

impl SgrConverter {
    pub fn new() -> (r: Self)
        ensures
            r@ == (SgrV {
                color: OutputColor::Default,
                esc: EscState::Text,
                params: seq![],
                has_intermediate: false,
                pending: seq![],
                cr_pending: false,
            }),
    {
        SgrConverter {
            color: OutputColor::Default,
            esc: EscState::Text,
            params: Vec::new(),
            has_intermediate: false,
            pending: Vec::new(),
            cr_pending: false,
        }
    }

    /// Resets the colour and any unfinished escape or character at the start
    /// of a new block.
    pub fn reset(&mut self)
        ensures
            final(self)@ == (SgrV {
                color: OutputColor::Default,
                esc: EscState::Text,
                params: seq![],
                pending: seq![],
                cr_pending: false,
                ..old(self)@
            }),
    {
        self.color = OutputColor::Default;
        self.esc = EscState::Text;
        self.params = Vec::new();
        self.pending = Vec::new();
        self.cr_pending = false;
    }

    /// One byte in the `Text` state, no carriage return pending.
    fn text_byte(&mut self, b: u8, buf: &mut String)
        requires
            old(self).esc == EscState::Text,
        ensures
            final(self)@ == text_byte(old(self)@, b).0,
            ({
                let items = text_byte(old(self)@, b).1;
                (items.len() == 0 && final(buf)@ == old(buf)@) || (items == colored(
                    lossy_decode(old(self)@.pending),
                    old(self)@.color,
                ) && final(buf)@ == old(buf)@ + lossy_decode(old(self)@.pending))
            }),
    {
        if b == 0x1b || b == 0x0d || b == 0x07 {
            push_lossy(buf, self.pending.as_slice());
            self.pending = Vec::new();
            if b == 0x1b {
                self.esc = EscState::Esc;
            } else if b == 0x0d {
                self.cr_pending = true;
            }
        } else {
            self.pending.push(b);
        }
    }

    /// One byte.
    fn step(&mut self, b: u8, events: &mut Vec<SgrEvent>, spans: &mut Vec<OutputSpan>, buf: &mut String)
        ensures
            final(self)@ == sgr_step(old(self)@, b).0,
            acc_of(final(events)@, final(spans)@, final(buf)@, final(self)@.color) == sgr_group_from(
                acc_of(old(events)@, old(spans)@, old(buf)@, old(self)@.color),
                sgr_step(old(self)@, b).1,
            ),
    {
        let ghost s0 = self@;
        let ghost a0 = acc_of(events@, spans@, buf@, self.color);
        let ghost items = sgr_step(s0, b).1;
        let color = self.color;
        match self.esc {
            EscState::Text => {
                if self.cr_pending {
                    self.cr_pending = false;
                    if b == 0x0a {
                        push_char(buf, '\n');
                        proof {
                            lemma_group_from_one(a0, SgrItem::Text(seq!['\n'], color));
                            lemma_push_text_concat(spans_view(spans@), old(buf)@, seq!['\n'], color);
                            assert(buf@ =~= old(buf)@ + seq!['\n']);
                        }
                        return;
                    }
                    push_break(events, spans, buf, color, SgrEvent::CarriageReturn);
                    let ghost a1 = acc_of(events@, spans@, buf@, color);
                    let ghost b1 = buf@;
                    let ghost t = text_byte(SgrV { cr_pending: false, ..s0 }, b);
                    self.text_byte(b, buf);
                    proof {
                        if t.1.len() == 0 {
                            assert(items =~= seq![SgrItem::Cr]);
                            lemma_group_from_one(a0, SgrItem::Cr);
                            assert(buf@ =~= b1);
                        } else {
                            let cs = lossy_decode(s0.pending);
                            assert(items =~= seq![SgrItem::Cr, SgrItem::Text(cs, color)]);
                            lemma_group_from_two(a0, SgrItem::Cr, SgrItem::Text(cs, color));
                            lemma_push_text_concat(spans_view(spans@), b1, cs, color);
                        }
                    }
                } else {
                    let ghost b1 = buf@;
                    self.text_byte(b, buf);
                    proof {
                        if items.len() == 0 {
                            assert(sgr_group_from(a0, items) == a0);
                            assert(buf@ =~= b1);
                        } else {
                            let cs = lossy_decode(s0.pending);
                            lemma_group_from_one(a0, SgrItem::Text(cs, color));
                            lemma_push_text_concat(spans_view(spans@), b1, cs, color);
                        }
                    }
                }
            },
            EscState::Esc => {
                if b == 0x5b {
                    self.esc = EscState::Csi;
                    self.params = Vec::new();
                    self.has_intermediate = false;
                } else {
                    self.esc = EscState::Text;
                }
                assert(sgr_group_from(a0, items) == a0);
            },
            EscState::Csi => {
                if 0x40 <= b && b <= 0x7e {
                    if b == 0x6d && !self.has_intermediate {
                        let ghost cs = lossy_decode(s0.pending);
                        let ghost b1 = buf@;
                        push_lossy(buf, self.pending.as_slice());
                        self.pending = Vec::new();
                        push_span(spans, buf, color);
                        self.color = apply_sgr(color, self.params.as_slice());
                        proof {
                            lemma_group_from_one(a0, SgrItem::Text(cs, color));
                            lemma_push_text_concat(spans_view(old(spans)@), b1, cs, color);
                        }
                    } else if (b == 0x68 || b == 0x6c) && !self.has_intermediate {
                        match detect_alt_screen(self.params.as_slice(), b) {
                            Some(alt) => {
                                let ghost cs = lossy_decode(s0.pending);
                                let ghost b1 = buf@;
                                push_lossy(buf, self.pending.as_slice());
                                self.pending = Vec::new();
                                proof {
                                    lemma_push_text_concat(spans_view(spans@), b1, cs, color);
                                }
                                push_break(events, spans, buf, color, SgrEvent::AltScreen(alt));
                                proof {
                                    assert(items =~= seq![SgrItem::Text(cs, color), SgrItem::Alt(alt)]);
                                    lemma_group_from_two(a0, SgrItem::Text(cs, color), SgrItem::Alt(alt));
                                }
                            },
                            None => {
                                assert(sgr_group_from(a0, items) == a0);
                            },
                        }
                    } else {
                        assert(sgr_group_from(a0, items) == a0);
                    }
                    self.esc = EscState::Text;
                    self.params = Vec::new();
                    self.has_intermediate = false;
                } else if 0x20 <= b && b <= 0x2f {
                    self.has_intermediate = true;
                    assert(sgr_group_from(a0, items) == a0);
                } else if 0x30 <= b && b <= 0x3f {
                    self.params.push(b);
                    assert(sgr_group_from(a0, items) == a0);
                } else {
                    self.esc = EscState::Text;
                    self.params = Vec::new();
                    self.has_intermediate = false;
                    assert(sgr_group_from(a0, items) == a0);
                }
            },
        }
    }

    /// End of a chunk: decode the complete characters still held back and
    /// emit the remaining spans.
    fn finish_chunk(&mut self, events: &mut Vec<SgrEvent>, spans: &mut Vec<OutputSpan>, buf: &mut String)
        ensures
            final(self)@ == chunk_end(old(self)@).0,
            sgr_events_view(final(events)@) == ({
                let a = sgr_group_from(
                    acc_of(old(events)@, old(spans)@, old(buf)@, old(self)@.color),
                    chunk_end(old(self)@).1,
                );
                a.0 + spans_event(a.1)
            }),
    {
        let ghost a0 = acc_of(events@, spans@, buf@, self.color);
        let ghost cs = partial_decode(self.pending@).0;
        let ghost b1 = buf@;
        let color = self.color;
        push_partial(buf, &mut self.pending);
        proof {
            lemma_group_from_one(a0, SgrItem::Text(cs, color));
            lemma_push_text_concat(spans_view(spans@), b1, cs, color);
        }
        push_span(spans, buf, color);
        flush_spans(events, spans);
    }

    /// Converts a chunk of output bytes into events; text of one colour forms
    /// one span, and a span list ends at a `\r`, an alternate-screen switch
    /// or the end of the chunk.
    pub fn convert(&mut self, bytes: &[u8]) -> (events: Vec<SgrEvent>)
        ensures
            final(self)@ == sgr_convert(old(self)@, bytes@).0,
            sgr_events_view(events@) == sgr_group(sgr_convert(old(self)@, bytes@).1),
    {
        reveal(sgr_convert);
        reveal(sgr_group);
        let ghost s0 = self@;
        let mut events: Vec<SgrEvent> = Vec::new();
        let mut spans: Vec<OutputSpan> = Vec::new();
        let mut buf = String::new();
        if bytes.len() == 0 && self.cr_pending {
            self.cr_pending = false;
            let color = self.color;
            push_break(&mut events, &mut spans, &mut buf, color, SgrEvent::CarriageReturn);
            let ghost a1 = acc_of(events@, spans@, buf@, color);
            let ghost e = chunk_end(self@);
            self.finish_chunk(&mut events, &mut spans, &mut buf);
            proof {
                let items = seq![SgrItem::Cr] + e.1;
                lemma_sgr_group_concat(seq![SgrItem::Cr], e.1);
                lemma_sgr_group_push(Seq::<SgrItem>::empty(), SgrItem::Cr);
                assert(seq![SgrItem::Cr] =~= Seq::<SgrItem>::empty().push(SgrItem::Cr));
                assert(acc_of(Seq::<SgrEvent>::empty(), Seq::<OutputSpan>::empty(), Seq::<char>::empty(), color) == sgr_group_acc(Seq::<SgrItem>::empty())) by {
                    assert(sgr_events_view(Seq::<SgrEvent>::empty()) =~= Seq::<SgrEventV>::empty());
                    assert(spans_view(Seq::<OutputSpan>::empty()) =~= Seq::<SpanV>::empty());
                }
                lemma_sgr_group_concat(seq![SgrItem::Cr], e.1);
            }
            return events;
        }
        let mut i: usize = 0;
        proof {
            assert(bytes@.take(0) =~= Seq::<u8>::empty());
            assert(sgr_events_view(events@) =~= Seq::<SgrEventV>::empty());
            assert(spans_view(spans@) =~= Seq::<SpanV>::empty());
        }
        while i < bytes.len()
            invariant
                i <= bytes@.len(),
                self@ == sgr_run(s0, bytes@.take(i as int)).0,
                acc_of(events@, spans@, buf@, self@.color) == sgr_group_acc(
                    sgr_run(s0, bytes@.take(i as int)).1,
                ),
            decreases bytes@.len() - i,
        {
            let ghost items0 = sgr_run(s0, bytes@.take(i as int)).1;
            let ghost st = self@;
            proof {
                assert(bytes@.take(i + 1).drop_last() =~= bytes@.take(i as int));
                lemma_sgr_group_concat(items0, sgr_step(st, bytes@[i as int]).1);
            }
            self.step(bytes[i], &mut events, &mut spans, &mut buf);
            i = i + 1;
        }
        let ghost r = sgr_run(s0, bytes@);
        assert(bytes@.take(i as int) =~= bytes@);
        proof {
            lemma_sgr_group_concat(r.1, chunk_end(r.0).1);
        }
        self.finish_chunk(&mut events, &mut spans, &mut buf);
        events
    }
}

/// The converter's byte machine keeps what it needs between chunks:
/// running over `a` and then over `b` from where `a` left it gives the state
/// and the items of running over them as one.
pub proof fn law_sgr_run_split(st: SgrV, a: Seq<u8>, b: Seq<u8>)
    ensures
        sgr_run(st, a + b) == ({
            let ra = sgr_run(st, a);
            let rb = sgr_run(ra.0, b);
            (rb.0, ra.1 + rb.1)
        }),
    decreases b.len(),
{
    if b.len() == 0 {
        assert(a + b =~= a);
        assert(sgr_run(st, a).1 + seq![] =~= sgr_run(st, a).1);
    } else {
        let bd = b.drop_last();
        assert((a + b).drop_last() =~= a + bd);
        assert((a + b).last() == b.last());
        law_sgr_run_split(st, a, bd);
        let ra = sgr_run(st, a);
        let rb = sgr_run(ra.0, bd);
        let s = sgr_step(rb.0, b.last());
        assert(ra.1 + rb.1 + s.1 =~= ra.1 + (rb.1 + s.1));
    }
}

/// The colour carries over a chunk boundary: after a chunk, the converter
/// holds the colour its byte machine ended with.
pub proof fn law_sgr_color_carries(st: SgrV, bytes: Seq<u8>)
    requires
        bytes.len() > 0 || !st.cr_pending,
    ensures
        sgr_convert(st, bytes).0.color == sgr_run(st, bytes).0.color,
{
    reveal(sgr_convert);
}

/// One unit of what the converter shows, as `(kind, character, colour)`:
/// kind 0 is a character in a colour, 1 a lone carriage return, 2 and 3 a
/// switch to and from the alternate screen (the other two parts are then
/// unused).
pub type Tok = (u8, char, OutputColor);

pub open spec fn text_toks(cs: Seq<char>, c: OutputColor) -> Seq<Tok> {
    cs.map_values(|ch: char| (0u8, ch, c))
}

pub open spec fn item_toks(it: SgrItem) -> Seq<Tok> {
    match it {
        SgrItem::Text(cs, c) => text_toks(cs, c),
        SgrItem::Cr => seq![(1u8, ' ', OutputColor::Default)],
        SgrItem::Alt(b) => seq![(if b { 2u8 } else { 3u8 }, ' ', OutputColor::Default)],
    }
}

/// The items as a flat sequence of units, whatever their grouping.
pub open spec fn toks(items: Seq<SgrItem>) -> Seq<Tok>
    decreases items.len(),
{
    if items.len() == 0 {
        Seq::empty()
    } else {
        toks(items.drop_last()) + item_toks(items.last())
    }
}

pub proof fn lemma_toks_concat(a: Seq<SgrItem>, b: Seq<SgrItem>)
    ensures
        toks(a + b) == toks(a) + toks(b),
    decreases b.len(),
{
    if b.len() == 0 {
        assert(a + b =~= a);
        assert(toks(a) + toks(b) =~= toks(a));
    } else {
        assert((a + b).drop_last() =~= a + b.drop_last());
        lemma_toks_concat(a, b.drop_last());
        assert(toks(a) + toks(b.drop_last()) + item_toks(b.last()) =~= toks(a) + (toks(b.drop_last()) + item_toks(
            b.last(),
        )));
    }
}

proof fn lemma_toks_colored(cs: Seq<char>, c: OutputColor)
    ensures
        toks(colored(cs, c)) == text_toks(cs, c),
{
    let it = colored(cs, c);
    assert(it.len() == 1);
    assert(it.last() == SgrItem::Text(cs, c));
    assert(it.drop_last() =~= Seq::<SgrItem>::empty());
    assert(toks(it.drop_last()) == Seq::<Tok>::empty());
    assert(item_toks(it.last()) == text_toks(cs, c));
    assert(toks(it) == toks(it.drop_last()) + item_toks(it.last()));
    assert(Seq::<Tok>::empty() + text_toks(cs, c) =~= text_toks(cs, c));
}

proof fn lemma_text_toks_concat(x: Seq<char>, y: Seq<char>, c: OutputColor)
    ensures
        text_toks(x + y, c) == text_toks(x, c) + text_toks(y, c),
{
    let l = text_toks(x + y, c);
    let r = text_toks(x, c) + text_toks(y, c);
    assert(l.len() == r.len());
    assert forall|i: int| 0 <= i < l.len() implies l[i] == r[i] by {
        if i < x.len() {
            assert((x + y)[i] == x[i]);
        } else {
            assert((x + y)[i] == y[i - x.len()]);
        }
    }
    assert(l =~= r);
}

/// A state the converter can be in: pending text only while reading plain
/// text with no carriage return held.
pub open spec fn sgr_inv(s: SgrV) -> bool {
    (s.cr_pending || s.esc != EscState::Text) ==> s.pending.len() == 0
}

proof fn lemma_step_inv(s: SgrV, b: u8)
    requires
        sgr_inv(s),
    ensures
        sgr_inv(sgr_step(s, b).0),
{
}

proof fn lemma_run_inv(s: SgrV, bytes: Seq<u8>)
    requires
        sgr_inv(s),
    ensures
        sgr_inv(sgr_run(s, bytes).0),
    decreases bytes.len(),
{
    if bytes.len() > 0 {
        lemma_run_inv(s, bytes.drop_last());
        lemma_step_inv(sgr_run(s, bytes.drop_last()).0, bytes.last());
    }
}

/// The converter's states stay valid: converting a chunk from a valid
/// state (such as the initial one) leads to a valid state.
pub proof fn law_sgr_states_stay_valid(s: SgrV, bytes: Seq<u8>)
    requires
        sgr_inv(s),
    ensures
        sgr_inv(sgr_convert(s, bytes).0),
{
    reveal(sgr_convert);
    lemma_run_inv(s, bytes);
}

/// The state `x` of a converter that ended a chunk holding the bytes `p`,
/// against the state `y` of one that did not: both have since read `e`.
pub open spec fn chunk_related(x: SgrV, y: SgrV, p: Seq<u8>, e: Seq<u8>) -> bool {
    &&& y.pending == p + e
    &&& x == SgrV { pending: partial_decode(p).1 + e, ..y }
}

proof fn lemma_step_related(x: SgrV, y: SgrV, p: Seq<u8>, e: Seq<u8>, b: u8)
    requires
        sgr_inv(y),
        chunk_related(x, y, p, e),
    ensures
        ({
            let rx = sgr_step(x, b);
            let ry = sgr_step(y, b);
            ||| chunk_related(rx.0, ry.0, p, e.push(b)) && rx.1.len() == 0 && ry.1.len() == 0
                && ry.0.color == y.color
            ||| rx.0 == ry.0 && toks(ry.1) == text_toks(partial_decode(p).0, y.color) + toks(rx.1)
        }),
{
    let pre = partial_decode(p).0;
    if p.len() == 0 {
        assert(partial_decode(p).1 + e =~= e);
        assert(p + e =~= e);
        assert(x == y);
        assert(text_toks(pre, y.color) + toks(sgr_step(y, b).1) =~= toks(sgr_step(y, b).1));
    } else {
        assert(y.pending.len() > 0);
        lemma_lossy_split(p, e);
        let tail = partial_decode(p).1;
        if b == 0x1b || b == 0x0d || b == 0x07 {
            lemma_toks_colored(lossy_decode(p + e), y.color);
            lemma_toks_colored(lossy_decode(tail + e), y.color);
            lemma_text_toks_concat(pre, lossy_decode(tail + e), y.color);
        } else {
            assert((p + e).push(b) =~= p + e.push(b));
            assert((tail + e).push(b) =~= tail + e.push(b));
        }
    }
}

proof fn lemma_run_related(x: SgrV, y: SgrV, p: Seq<u8>, bytes: Seq<u8>)
    requires
        sgr_inv(y),
        chunk_related(x, y, p, Seq::empty()),
    ensures
        ({
            let rx = sgr_run(x, bytes);
            let ry = sgr_run(y, bytes);
            ||| (exists|e: Seq<u8>| #[trigger] chunk_related(rx.0, ry.0, p, e)) && rx.1.len() == 0 && ry.1.len() == 0
                && ry.0.color == y.color
            ||| rx.0 == ry.0 && toks(ry.1) == text_toks(partial_decode(p).0, y.color) + toks(rx.1)
        }),
    decreases bytes.len(),
{
    let pre = partial_decode(p).0;
    if bytes.len() == 0 {
        assert(chunk_related(x, y, p, Seq::empty()));
    } else {
        let d = bytes.drop_last();
        let b = bytes.last();
        lemma_run_related(x, y, p, d);
        let mx = sgr_run(x, d);
        let my = sgr_run(y, d);
        lemma_run_inv(y, d);
        let sx = sgr_step(mx.0, b);
        let sy = sgr_step(my.0, b);
        lemma_toks_concat(mx.1, sx.1);
        lemma_toks_concat(my.1, sy.1);
        if (exists|e: Seq<u8>| #[trigger] chunk_related(mx.0, my.0, p, e)) && mx.1.len() == 0 && my.1.len() == 0
            && my.0.color == y.color {
            let e = choose|e: Seq<u8>| #[trigger] chunk_related(mx.0, my.0, p, e);
            lemma_step_related(mx.0, my.0, p, e, b);
            assert(mx.1 =~= Seq::<SgrItem>::empty());
            assert(my.1 =~= Seq::<SgrItem>::empty());
            assert(mx.1 + sx.1 =~= sx.1);
            assert(my.1 + sy.1 =~= sy.1);
            if chunk_related(sx.0, sy.0, p, e.push(b)) && sx.1.len() == 0 && sy.1.len() == 0 && sy.0.color
                == my.0.color {
                assert(chunk_related(sx.0, sy.0, p, e.push(b)));
            }
        } else {
            assert(sx == sy);
            assert(toks(my.1) + toks(sy.1) =~= text_toks(pre, y.color) + (toks(mx.1) + toks(sx.1)));
        }
    }
}

/// Output split into chunks anywhere shows the same: converting `a` and
/// then `b` gives the same final state, and the same characters (with
/// their colours), carriage returns and screen switches in the same order,
/// as converting `a + b` at once. A UTF-8 character or an escape sequence
/// cut by the boundary is reassembled. (A chunk must not be empty: an empty
/// chunk reports a held carriage return at once.)
pub proof fn law_sgr_chunks(st: SgrV, a: Seq<u8>, b: Seq<u8>)
    requires
        sgr_inv(st),
        a.len() > 0 || !st.cr_pending,
        b.len() > 0,
    ensures
        ({
            let r1 = sgr_convert(st, a);
            let r2 = sgr_convert(r1.0, b);
            let r3 = sgr_convert(st, a + b);
            r2.0 == r3.0 && toks(r1.1 + r2.1) == toks(r3.1)
        }),
{
    reveal(sgr_convert);
    let ra = sgr_run(st, a);
    let ya = ra.0;
    let p = ya.pending;
    let pre = partial_decode(p).0;
    let tail = partial_decode(p).1;
    let c = ya.color;
    let x0 = SgrV { pending: tail, ..ya };
    lemma_run_inv(st, a);
    assert(p + Seq::<u8>::empty() =~= p);
    assert(tail + Seq::<u8>::empty() =~= tail);
    assert(chunk_related(x0, ya, p, Seq::empty()));
    law_sgr_run_split(st, a, b);
    lemma_run_related(x0, ya, p, b);
    let rx = sgr_run(x0, b);
    let ry = sgr_run(ya, b);
    let i1 = ra.1 + colored(pre, c);
    lemma_toks_concat(ra.1, colored(pre, c));
    lemma_toks_colored(pre, c);
    if (exists|e: Seq<u8>| #[trigger] chunk_related(rx.0, ry.0, p, e)) && rx.1.len() == 0 && ry.1.len() == 0
        && ry.0.color == c {
        let e = choose|e: Seq<u8>| #[trigger] chunk_related(rx.0, ry.0, p, e);
        lemma_law_tail_held(ra.1, pre, tail, c, rx, ry, p, e);
    } else {
        lemma_law_tail_flushed(ra.1, pre, c, rx, ry);
    }
}

proof fn lemma_law_tail_held(
    ia: Seq<SgrItem>,
    pre: Seq<char>,
    tail: Seq<u8>,
    c: OutputColor,
    rx: (SgrV, Seq<SgrItem>),
    ry: (SgrV, Seq<SgrItem>),
    p: Seq<u8>,
    e: Seq<u8>,
)
    requires
        chunk_related(rx.0, ry.0, p, e),
        rx.1.len() == 0,
        ry.1.len() == 0,
        ry.0.color == c,
        partial_decode(p) == (pre, tail),
    ensures
        chunk_end(rx.0).0 == chunk_end(ry.0).0,
        toks(ia + colored(pre, c) + (rx.1 + chunk_end(rx.0).1)) == toks(ia + ry.1 + chunk_end(ry.0).1),
{
    lemma_partial_split(p, e);
    let q = partial_decode(tail + e);
    assert(rx.1 =~= Seq::<SgrItem>::empty());
    assert(ry.1 =~= Seq::<SgrItem>::empty());
    assert(chunk_end(rx.0).1 == colored(q.0, c));
    assert(chunk_end(ry.0).1 == colored(pre + q.0, c));
    assert(rx.1 + colored(q.0, c) =~= colored(q.0, c));
    assert(ia + ry.1 =~= ia);
    lemma_toks_concat(ia + colored(pre, c), colored(q.0, c));
    lemma_toks_concat(ia, colored(pre, c));
    lemma_toks_concat(ia, colored(pre + q.0, c));
    lemma_toks_colored(pre, c);
    lemma_toks_colored(q.0, c);
    lemma_toks_colored(pre + q.0, c);
    lemma_text_toks_concat(pre, q.0, c);
    assert(toks(ia) + text_toks(pre, c) + text_toks(q.0, c) =~= toks(ia) + (text_toks(pre, c) + text_toks(q.0, c)));
}

proof fn lemma_law_tail_flushed(
    ia: Seq<SgrItem>,
    pre: Seq<char>,
    c: OutputColor,
    rx: (SgrV, Seq<SgrItem>),
    ry: (SgrV, Seq<SgrItem>),
)
    requires
        rx.0 == ry.0,
        toks(ry.1) == text_toks(pre, c) + toks(rx.1),
    ensures
        toks(ia + colored(pre, c) + (rx.1 + chunk_end(rx.0).1)) == toks(ia + ry.1 + chunk_end(ry.0).1),
{
    let ex = chunk_end(rx.0).1;
    lemma_toks_concat(ia + colored(pre, c), rx.1 + ex);
    lemma_toks_concat(ia, colored(pre, c));
    lemma_toks_colored(pre, c);
    lemma_toks_concat(rx.1, ex);
    lemma_toks_concat(ia + ry.1, ex);
    lemma_toks_concat(ia, ry.1);
    assert(toks(ia) + text_toks(pre, c) + (toks(rx.1) + toks(ex)) =~= toks(ia) + (text_toks(pre, c) + toks(rx.1))
        + toks(ex));
}

/// Spans as the converter makes them: none is empty, and neighbours differ
/// in colour.
pub open spec fn spans_well_formed(v: Seq<SpanV>) -> bool {
    &&& forall|k: int| 0 <= k < v.len() ==> (#[trigger] v[k]).text.len() > 0
    &&& forall|j: int, k: int| #![trigger v[j], v[k]] 0 <= j && k == j + 1 && k < v.len() ==> v[j].color != v[k].color
}

/// Events as the converter returns them: every `Spans` event holds at least
/// one span, its spans are well formed, and no two `Spans` events are
/// neighbours.
pub open spec fn events_well_formed(evs: Seq<SgrEventV>) -> bool {
    &&& forall|k: int| 0 <= k < evs.len() ==> (#[trigger] evs[k] matches SgrEventV::Spans(v) ==> v.len() > 0 && spans_well_formed(v))
    &&& forall|j: int, k: int| #![trigger evs[j], evs[k]] 0 <= j && k == j + 1 && k < evs.len() ==> !(evs[j] is Spans && evs[k] is Spans)
}

proof fn lemma_push_text_well_formed(spans: Seq<SpanV>, t: Seq<char>, color: OutputColor)
    requires
        spans_well_formed(spans),
    ensures
        spans_well_formed(push_text(spans, t, color)),
{
    lemma_push_text_closed(spans, t, color);
    let r = push_text_closed(spans, t, color);
    if t.len() > 0 {
        if spans.len() > 0 && spans.last().color == color {
            assert forall|k: int| 0 <= k < r.len() implies (#[trigger] r[k]).text.len() > 0 by {
                if k < r.len() - 1 {
                    assert(r[k] == spans[k]);
                }
            }
            assert forall|j: int, k: int| #![trigger r[j], r[k]] 0 <= j && k == j + 1 && k < r.len() implies r[j].color != r[k].color by {
                assert(r[j] == spans[j]);
                assert(r[k].color == spans[k].color);
            }
        } else {
            assert forall|k: int| 0 <= k < r.len() implies (#[trigger] r[k]).text.len() > 0 by {
                if k < r.len() - 1 {
                    assert(r[k] == spans[k]);
                }
            }
            assert forall|j: int, k: int| #![trigger r[j], r[k]] 0 <= j && k == j + 1 && k < r.len() implies r[j].color != r[k].color by {
                assert(r[j] == spans[j]);
                if k < r.len() - 1 {
                    assert(r[k] == spans[k]);
                }
            }
        }
    }
}

proof fn lemma_events_push(evs: Seq<SgrEventV>, e: SgrEventV)
    requires
        events_well_formed(evs),
        e matches SgrEventV::Spans(v) ==> v.len() > 0 && spans_well_formed(v),
        e is Spans && evs.len() > 0 ==> !(evs.last() is Spans),
    ensures
        events_well_formed(evs.push(e)),
{
    let r = evs.push(e);
    assert forall|k: int| 0 <= k < r.len() implies (#[trigger] r[k] matches SgrEventV::Spans(v) ==> v.len() > 0 && spans_well_formed(v)) by {
        if k < evs.len() {
            assert(r[k] == evs[k]);
        }
    }
    assert forall|j: int, k: int| #![trigger r[j], r[k]] 0 <= j && k == j + 1 && k < r.len() implies !(r[j] is Spans && r[k] is Spans) by {
        assert(r[j] == evs[j]);
        if k < evs.len() {
            assert(r[k] == evs[k]);
        }
    }
}

/// What the grouping keeps well formed: the events so far, the spans not
/// yet emitted, and no `Spans` event last.
pub open spec fn group_acc_ok(acc: (Seq<SgrEventV>, Seq<SpanV>)) -> bool {
    &&& events_well_formed(acc.0)
    &&& spans_well_formed(acc.1)
    &&& acc.0.len() > 0 ==> !(acc.0.last() is Spans)
}

proof fn lemma_flush_spans(evs: Seq<SgrEventV>, spans: Seq<SpanV>)
    requires
        group_acc_ok((evs, spans)),
    ensures
        events_well_formed(evs + spans_event(spans)),
{
    if spans.len() == 0 {
        assert(evs + spans_event(spans) =~= evs);
    } else {
        assert(evs + spans_event(spans) =~= evs.push(SgrEventV::Spans(spans)));
        lemma_events_push(evs, SgrEventV::Spans(spans));
    }
}

proof fn lemma_group_acc_ok(items: Seq<SgrItem>)
    ensures
        group_acc_ok(sgr_group_acc(items)),
    decreases items.len(),
{
    if items.len() > 0 {
        let i = items.drop_last();
        lemma_group_acc_ok(i);
        let acc = sgr_group_acc(i);
        match items.last() {
            SgrItem::Text(cs, c) => {
                lemma_push_text_well_formed(acc.1, cs, c);
            },
            SgrItem::Cr => {
                lemma_flush_spans(acc.0, acc.1);
                lemma_events_push(acc.0 + spans_event(acc.1), SgrEventV::CarriageReturn);
                assert(acc.0 + spans_event(acc.1) + seq![SgrEventV::CarriageReturn] =~= (acc.0 + spans_event(acc.1)).push(SgrEventV::CarriageReturn));
            },
            SgrItem::Alt(b) => {
                lemma_flush_spans(acc.0, acc.1);
                lemma_events_push(acc.0 + spans_event(acc.1), SgrEventV::AltScreen(b));
                assert(acc.0 + spans_event(acc.1) + seq![SgrEventV::AltScreen(b)] =~= (acc.0 + spans_event(acc.1)).push(SgrEventV::AltScreen(b)));
            },
        }
    }
}

/// Every result of the converter has the same shape: each `Spans` event
/// holds at least one span, no span is empty, neighbouring spans differ in
/// colour, and no two `Spans` events are neighbours.
pub proof fn law_sgr_events_shape(st: SgrV, bytes: Seq<u8>)
    ensures
        events_well_formed(sgr_group(sgr_convert(st, bytes).1)),
{
    reveal(sgr_group);
    let items = sgr_convert(st, bytes).1;
    lemma_group_acc_ok(items);
    lemma_flush_spans(sgr_group_acc(items).0, sgr_group_acc(items).1);
}

/// All text of the `Spans` events, in order.
pub open spec fn events_text(evs: Seq<SgrEventV>) -> Seq<char>
    decreases evs.len(),
{
    if evs.len() == 0 {
        seq![]
    } else {
        events_text(evs.drop_last()) + match evs.last() {
            SgrEventV::Spans(v) => spans_text(v),
            _ => seq![],
        }
    }
}

/// All characters of the text items, in order.
pub open spec fn items_text(items: Seq<SgrItem>) -> Seq<char>
    decreases items.len(),
{
    if items.len() == 0 {
        seq![]
    } else {
        items_text(items.drop_last()) + match items.last() {
            SgrItem::Text(cs, _) => cs,
            _ => seq![],
        }
    }
}

/// The characters among the units.
pub open spec fn toks_text(ts: Seq<Tok>) -> Seq<char>
    decreases ts.len(),
{
    if ts.len() == 0 {
        seq![]
    } else {
        toks_text(ts.drop_last()) + if ts.last().0 == 0 {
            seq![ts.last().1]
        } else {
            seq![]
        }
    }
}

proof fn lemma_events_text_concat(a: Seq<SgrEventV>, b: Seq<SgrEventV>)
    ensures
        events_text(a + b) == events_text(a) + events_text(b),
    decreases b.len(),
{
    if b.len() == 0 {
        assert(a + b =~= a);
        assert(events_text(a) + events_text(b) =~= events_text(a));
    } else {
        assert((a + b).drop_last() =~= a + b.drop_last());
        assert((a + b).last() == b.last());
        lemma_events_text_concat(a, b.drop_last());
        let t = match b.last() {
            SgrEventV::Spans(v) => spans_text(v),
            _ => seq![],
        };
        assert(events_text(a) + events_text(b.drop_last()) + t =~= events_text(a) + (events_text(b.drop_last()) + t));
    }
}

proof fn lemma_items_text_concat(a: Seq<SgrItem>, b: Seq<SgrItem>)
    ensures
        items_text(a + b) == items_text(a) + items_text(b),
    decreases b.len(),
{
    if b.len() == 0 {
        assert(a + b =~= a);
        assert(items_text(a) + items_text(b) =~= items_text(a));
    } else {
        assert((a + b).drop_last() =~= a + b.drop_last());
        assert((a + b).last() == b.last());
        lemma_items_text_concat(a, b.drop_last());
        let t = match b.last() {
            SgrItem::Text(cs, _) => cs,
            _ => seq![],
        };
        assert(items_text(a) + items_text(b.drop_last()) + t =~= items_text(a) + (items_text(b.drop_last()) + t));
    }
}

proof fn lemma_toks_text_concat(a: Seq<Tok>, b: Seq<Tok>)
    ensures
        toks_text(a + b) == toks_text(a) + toks_text(b),
    decreases b.len(),
{
    if b.len() == 0 {
        assert(a + b =~= a);
        assert(toks_text(a) + toks_text(b) =~= toks_text(a));
    } else {
        assert((a + b).drop_last() =~= a + b.drop_last());
        assert((a + b).last() == b.last());
        lemma_toks_text_concat(a, b.drop_last());
        let t: Seq<char> = if b.last().0 == 0 {
            seq![b.last().1]
        } else {
            seq![]
        };
        assert(toks_text(a) + toks_text(b.drop_last()) + t =~= toks_text(a) + (toks_text(b.drop_last()) + t));
    }
}

proof fn lemma_toks_text_of_text(cs: Seq<char>, c: OutputColor)
    ensures
        toks_text(text_toks(cs, c)) == cs,
    decreases cs.len(),
{
    if cs.len() > 0 {
        let d = cs.drop_last();
        assert(text_toks(cs, c).drop_last() =~= text_toks(d, c));
        lemma_toks_text_of_text(d, c);
        assert(d.push(cs.last()) =~= cs);
    } else {
        assert(text_toks(cs, c) =~= Seq::<Tok>::empty());
    }
}

proof fn lemma_items_text_toks(items: Seq<SgrItem>)
    ensures
        items_text(items) == toks_text(toks(items)),
    decreases items.len(),
{
    if items.len() > 0 {
        let d = items.drop_last();
        lemma_items_text_toks(d);
        lemma_toks_text_concat(toks(d), item_toks(items.last()));
        match items.last() {
            SgrItem::Text(cs, c) => {
                lemma_toks_text_of_text(cs, c);
            },
            SgrItem::Cr => {
                let t = seq![(1u8, ' ', OutputColor::Default)];
                assert(t.drop_last() =~= Seq::<Tok>::empty());
                assert(toks_text(t.drop_last()) == Seq::<char>::empty());
                assert(t.last().0 != 0);
                assert(toks_text(t) =~= Seq::<char>::empty());
            },
            SgrItem::Alt(b) => {
                let t = seq![(if b { 2u8 } else { 3u8 }, ' ', OutputColor::Default)];
                assert(t.drop_last() =~= Seq::<Tok>::empty());
                assert(toks_text(t.drop_last()) == Seq::<char>::empty());
                assert(t.last().0 != 0);
                assert(toks_text(t) =~= Seq::<char>::empty());
            },
        }
    }
}

proof fn lemma_spans_text_push(v: Seq<SpanV>, x: SpanV)
    ensures
        spans_text(v.push(x)) == spans_text(v) + x.text,
{
    assert(v.push(x).drop_last() =~= v);
}

proof fn lemma_push_text_text(spans: Seq<SpanV>, t: Seq<char>, color: OutputColor)
    ensures
        spans_text(push_text(spans, t, color)) == spans_text(spans) + t,
{
    lemma_push_text_closed(spans, t, color);
    if t.len() == 0 {
        assert(spans_text(spans) + t =~= spans_text(spans));
    } else if spans.len() > 0 && spans.last().color == color {
        let d = spans.drop_last();
        assert(d.push(spans.last()) =~= spans);
        lemma_spans_text_push(d, spans.last());
        lemma_spans_text_push(d, SpanV { color, text: spans.last().text + t });
        assert(spans_text(d) + (spans.last().text + t) =~= spans_text(d) + spans.last().text + t);
    } else {
        lemma_spans_text_push(spans, SpanV { color, text: t });
    }
}

proof fn lemma_one_event_text(e: SgrEventV)
    ensures
        events_text(seq![e]) == match e {
            SgrEventV::Spans(v) => spans_text(v),
            _ => seq![],
        },
{
    assert(seq![e].drop_last() =~= Seq::<SgrEventV>::empty());
    assert(events_text(seq![e].drop_last()) == Seq::<char>::empty());
    assert(seq![e].last() == e);
    let t = match e {
        SgrEventV::Spans(v) => spans_text(v),
        _ => seq![],
    };
    assert(Seq::<char>::empty() + t =~= t);
}

proof fn lemma_spans_event_text(spans: Seq<SpanV>)
    ensures
        events_text(spans_event(spans)) == spans_text(spans),
{
    if spans.len() == 0 {
        assert(events_text(spans_event(spans)) =~= Seq::<char>::empty());
    } else {
        lemma_one_event_text(SgrEventV::Spans(spans));
    }
}

proof fn lemma_group_acc_text(items: Seq<SgrItem>)
    ensures
        events_text(sgr_group_acc(items).0) + spans_text(sgr_group_acc(items).1) == items_text(items),
    decreases items.len(),
{
    if items.len() == 0 {
        assert(Seq::<char>::empty() + Seq::<char>::empty() =~= Seq::<char>::empty());
    } else {
        let i = items.drop_last();
        lemma_group_acc_text(i);
        let acc = sgr_group_acc(i);
        match items.last() {
            SgrItem::Text(cs, c) => {
                lemma_push_text_text(acc.1, cs, c);
                assert(events_text(acc.0) + (spans_text(acc.1) + cs) =~= events_text(acc.0) + spans_text(acc.1) + cs);
            },
            SgrItem::Cr => {
                let e = seq![SgrEventV::CarriageReturn];
                lemma_events_text_concat(acc.0 + spans_event(acc.1), e);
                lemma_events_text_concat(acc.0, spans_event(acc.1));
                lemma_spans_event_text(acc.1);
                lemma_one_event_text(SgrEventV::CarriageReturn);
                assert(events_text(acc.0) + spans_text(acc.1) + Seq::<char>::empty() + Seq::<char>::empty() =~= events_text(acc.0) + spans_text(acc.1) + Seq::<char>::empty());
            },
            SgrItem::Alt(b) => {
                let e = seq![SgrEventV::AltScreen(b)];
                lemma_events_text_concat(acc.0 + spans_event(acc.1), e);
                lemma_events_text_concat(acc.0, spans_event(acc.1));
                lemma_spans_event_text(acc.1);
                lemma_one_event_text(SgrEventV::AltScreen(b));
                assert(events_text(acc.0) + spans_text(acc.1) + Seq::<char>::empty() + Seq::<char>::empty() =~= events_text(acc.0) + spans_text(acc.1) + Seq::<char>::empty());
            },
        }
    }
}

/// The text of the events is the text of the items they group.
pub proof fn lemma_group_text(items: Seq<SgrItem>)
    ensures
        events_text(sgr_group(items)) == items_text(items),
{
    reveal(sgr_group);
    lemma_group_acc_text(items);
    lemma_events_text_concat(sgr_group_acc(items).0, spans_event(sgr_group_acc(items).1));
    lemma_spans_event_text(sgr_group_acc(items).1);
}

/// The text of the output does not depend on where it was cut into chunks:
/// the text of converting `a` and then `b` is that of converting `a + b`.
pub proof fn law_sgr_text_split(st: SgrV, a: Seq<u8>, b: Seq<u8>)
    requires
        sgr_inv(st),
        a.len() > 0 || !st.cr_pending,
        b.len() > 0,
    ensures
        ({
            let r1 = sgr_convert(st, a);
            let r2 = sgr_convert(r1.0, b);
            events_text(sgr_group(r1.1)) + events_text(sgr_group(r2.1)) == events_text(
                sgr_group(sgr_convert(st, a + b).1),
            )
        }),
{
    let r1 = sgr_convert(st, a);
    let r2 = sgr_convert(r1.0, b);
    let r3 = sgr_convert(st, a + b);
    law_sgr_chunks(st, a, b);
    lemma_group_text(r1.1);
    lemma_group_text(r2.1);
    lemma_group_text(r3.1);
    lemma_items_text_concat(r1.1, r2.1);
    lemma_items_text_toks(r1.1 + r2.1);
    lemma_items_text_toks(r3.1);
}

/// Bytes without ESC, CR or BEL.
pub open spec fn plain_bytes(s: Seq<u8>) -> bool {
    forall|i: int| 0 <= i < s.len() ==> #[trigger] s[i] != 0x1b && s[i] != 0x0d && s[i] != 0x07
}

/// A converter reading plain text with nothing held.
pub open spec fn sgr_clean(st: SgrV) -> bool {
    st.esc == EscState::Text && !st.cr_pending && st.pending.len() == 0
}

proof fn lemma_run_plain(st: SgrV, s: Seq<u8>)
    requires
        st.esc == EscState::Text,
        !st.cr_pending,
        plain_bytes(s),
    ensures
        sgr_run(st, s) == (SgrV { pending: st.pending + s, ..st }, Seq::<SgrItem>::empty()),
    decreases s.len(),
{
    if s.len() == 0 {
        assert(st.pending + s =~= st.pending);
    } else {
        let d = s.drop_last();
        assert forall|i: int| 0 <= i < d.len() implies #[trigger] d[i] != 0x1b && d[i] != 0x0d && d[i] != 0x07 by {
            assert(d[i] == s[i]);
        }
        lemma_run_plain(st, d);
        assert(s[s.len() - 1] != 0x1b && s[s.len() - 1] != 0x0d && s[s.len() - 1] != 0x07);
        assert((st.pending + d).push(s.last()) =~= st.pending + s);
        assert(Seq::<SgrItem>::empty() + Seq::<SgrItem>::empty() =~= Seq::<SgrItem>::empty());
    }
}

/// The events of plain text (no escape, carriage return or bell) read by a
/// converter with nothing held: one span of the current colour holding the
/// decoded characters (a character cut at the end is held for the next
/// chunk), or nothing when there are none.
pub open spec fn plain_events(color: OutputColor, t: Seq<char>) -> Seq<SgrEventV> {
    if t.len() == 0 {
        seq![]
    } else {
        seq![SgrEventV::Spans(seq![SpanV { color, text: t }])]
    }
}

/// Plain text comes out as one span of the current colour, the colour and
/// the escape state unchanged.
pub proof fn law_sgr_plain(st: SgrV, s: Seq<u8>)
    requires
        sgr_clean(st),
        plain_bytes(s),
    ensures
        sgr_convert(st, s).0 == (SgrV { pending: partial_decode(s).1, ..st }),
        sgr_group(sgr_convert(st, s).1) == plain_events(st.color, partial_decode(s).0),
        events_text(sgr_group(sgr_convert(st, s).1)) == partial_decode(s).0,
{
    reveal(sgr_convert);
    reveal(sgr_group);
    lemma_run_plain(st, s);
    assert(st.pending + s =~= s);
    let t = partial_decode(s).0;
    let items = sgr_convert(st, s).1;
    assert(items =~= colored(t, st.color));
    lemma_sgr_group_push(Seq::<SgrItem>::empty(), SgrItem::Text(t, st.color));
    assert(Seq::<SgrItem>::empty().push(SgrItem::Text(t, st.color)) =~= items);
    lemma_push_text_closed(Seq::<SpanV>::empty(), t, st.color);
    let acc = sgr_group_acc(items);
    if t.len() == 0 {
        assert(acc.1 =~= Seq::<SpanV>::empty());
        assert(sgr_group(items) =~= Seq::<SgrEventV>::empty());
    } else {
        assert(acc.1 =~= seq![SpanV { color: st.color, text: t }]);
        assert(sgr_group(items) =~= plain_events(st.color, t));
    }
    lemma_group_text(items);
    lemma_items_text_concat(Seq::<SgrItem>::empty(), items);
    assert(items.drop_last() =~= Seq::<SgrItem>::empty());
    assert(Seq::<char>::empty() + t =~= t);
}

/// Well-formed plain text cut anywhere, even inside a character, shows its
/// characters exactly once: the text of converting the part before the cut
/// and then the part after it is the decoded text.
pub proof fn law_sgr_plain_split(st: SgrV, s: Seq<u8>, k: int)
    requires
        sgr_clean(st),
        plain_bytes(s),
        utf8_ok(s),
        0 <= k <= s.len(),
    ensures
        ({
            let r1 = sgr_convert(st, s.take(k));
            let r2 = sgr_convert(r1.0, s.skip(k));
            events_text(sgr_group(r1.1)) + events_text(sgr_group(r2.1)) == lossy_decode(s)
        }),
{
    let a = s.take(k);
    let b = s.skip(k);
    assert(a + b =~= s);
    lemma_partial_valid(s);
    law_sgr_plain(st, s);
    if k < s.len() {
        law_sgr_text_split(st, a, b);
    } else {
        assert(a =~= s);
        let r1 = sgr_convert(st, a);
        assert(sgr_clean(r1.0));
        assert(b =~= Seq::<u8>::empty());
        assert(plain_bytes(b));
        law_sgr_plain(r1.0, b);
        assert(partial_decode(b) == (Seq::<char>::empty(), Seq::<u8>::empty()));
        assert(lossy_decode(s) + Seq::<char>::empty() =~= lossy_decode(s));
    }
}

proof fn lemma_fields_single(p: Seq<u8>)
    requires
        forall|i: int| 0 <= i < p.len() ==> #[trigger] p[i] != 0x3b,
    ensures
        fields(p) == seq![p],
{
    reveal(fields);
    assert(!(exists|i: int| 0 <= i < p.len() && p[i] == 0x3b));
    assert(crate::term::osc::find_byte(p, 0x3b) is None);
}

proof fn lemma_single_code(c: OutputColor, p: Seq<u8>, n: i32)
    requires
        p.len() > 0,
        forall|i: int| 0 <= i < p.len() ==> #[trigger] p[i] != 0x3b,
        parse_i32(p) == Some(n),
    ensures
        apply_sgr_spec(c, p) == sgr_code(c, seq![n], 0).0,
{
    lemma_fields_single(p);
    let f = seq![p];
    assert(f.drop_first() =~= Seq::<Seq<u8>>::empty());
    assert(parse_codes(f.drop_first()) == Seq::<i32>::empty());
    assert(parse_codes(f) =~= seq![n]);
    let codes = seq![n];
    let r = sgr_code(c, codes, 0);
    assert(r.1 >= 1);
    assert(sgr_codes_from(c, codes, 0) == r.0);
}

proof fn lemma_parse_one(a: u8)
    requires
        0x30 <= a <= 0x39,
    ensures
        parse_i32(seq![a]) == Some((a - 0x30) as i32),
{
    let p = seq![a];
    assert(p.drop_last() =~= Seq::<u8>::empty());
    assert(crate::num::digits_value(p.drop_last()) == 0);
    assert(crate::num::digits_value(p) == (a - 0x30) as nat);
    assert(crate::num::all_digits(p));
}

proof fn lemma_parse_two(a: u8, b: u8)
    requires
        0x30 <= a <= 0x39,
        0x30 <= b <= 0x39,
    ensures
        parse_i32(seq![a, b]) == Some(((a - 0x30) * 10 + (b - 0x30)) as i32),
{
    let p = seq![a, b];
    assert(p.drop_last() =~= seq![a]);
    lemma_parse_one(a);
    assert(seq![a].drop_last() =~= Seq::<u8>::empty());
    assert(crate::num::digits_value(seq![a].drop_last()) == 0);
    assert(crate::num::digits_value(seq![a]) == (a - 0x30) as nat);
    assert(crate::num::digits_value(p) == ((a - 0x30) * 10 + (b - 0x30)) as nat);
    assert(crate::num::all_digits(p));
}

/// The basic SGR colour codes each set their own foreground colour,
/// whatever the colour was before: 31/91 rust (red), 32/92 sage (green),
/// 33/93 amber (yellow), 34/94/36/96 azure (blue, cyan), 35/95 plum
/// (magenta); 2 and 90 dim; 0, 30, 37, 39, 97 and an empty sequence the
/// default. A code that sets no colour (1, bold) keeps it.
pub proof fn law_sgr_basic_colours(c: OutputColor)
    ensures
        apply_sgr_spec(c, seq![0x33u8, 0x31]) == OutputColor::Rust,
        apply_sgr_spec(c, seq![0x39u8, 0x31]) == OutputColor::Rust,
        apply_sgr_spec(c, seq![0x33u8, 0x32]) == OutputColor::Sage,
        apply_sgr_spec(c, seq![0x39u8, 0x32]) == OutputColor::Sage,
        apply_sgr_spec(c, seq![0x33u8, 0x33]) == OutputColor::Amber,
        apply_sgr_spec(c, seq![0x39u8, 0x33]) == OutputColor::Amber,
        apply_sgr_spec(c, seq![0x33u8, 0x34]) == OutputColor::Azure,
        apply_sgr_spec(c, seq![0x39u8, 0x34]) == OutputColor::Azure,
        apply_sgr_spec(c, seq![0x33u8, 0x36]) == OutputColor::Azure,
        apply_sgr_spec(c, seq![0x39u8, 0x36]) == OutputColor::Azure,
        apply_sgr_spec(c, seq![0x33u8, 0x35]) == OutputColor::Plum,
        apply_sgr_spec(c, seq![0x39u8, 0x35]) == OutputColor::Plum,
        apply_sgr_spec(c, seq![0x32u8]) == OutputColor::Dim,
        apply_sgr_spec(c, seq![0x39u8, 0x30]) == OutputColor::Dim,
        apply_sgr_spec(c, seq![0x30u8]) == OutputColor::Default,
        apply_sgr_spec(c, seq![0x33u8, 0x30]) == OutputColor::Default,
        apply_sgr_spec(c, seq![0x33u8, 0x37]) == OutputColor::Default,
        apply_sgr_spec(c, seq![0x33u8, 0x39]) == OutputColor::Default,
        apply_sgr_spec(c, seq![0x39u8, 0x37]) == OutputColor::Default,
        apply_sgr_spec(c, seq![]) == OutputColor::Default,
        apply_sgr_spec(c, seq![0x31u8]) == c,
{
    lemma_parse_two(0x33u8, 0x31u8);
    lemma_single_code(c, seq![0x33u8, 0x31], 31i32);
    lemma_parse_two(0x39u8, 0x31u8);
    lemma_single_code(c, seq![0x39u8, 0x31], 91i32);
    lemma_parse_two(0x33u8, 0x32u8);
    lemma_single_code(c, seq![0x33u8, 0x32], 32i32);
    lemma_parse_two(0x39u8, 0x32u8);
    lemma_single_code(c, seq![0x39u8, 0x32], 92i32);
    lemma_parse_two(0x33u8, 0x33u8);
    lemma_single_code(c, seq![0x33u8, 0x33], 33i32);
    lemma_parse_two(0x39u8, 0x33u8);
    lemma_single_code(c, seq![0x39u8, 0x33], 93i32);
    lemma_parse_two(0x33u8, 0x34u8);
    lemma_single_code(c, seq![0x33u8, 0x34], 34i32);
    lemma_parse_two(0x39u8, 0x34u8);
    lemma_single_code(c, seq![0x39u8, 0x34], 94i32);
    lemma_parse_two(0x33u8, 0x36u8);
    lemma_single_code(c, seq![0x33u8, 0x36], 36i32);
    lemma_parse_two(0x39u8, 0x36u8);
    lemma_single_code(c, seq![0x39u8, 0x36], 96i32);
    lemma_parse_two(0x33u8, 0x35u8);
    lemma_single_code(c, seq![0x33u8, 0x35], 35i32);
    lemma_parse_two(0x39u8, 0x35u8);
    lemma_single_code(c, seq![0x39u8, 0x35], 95i32);
    lemma_parse_two(0x39u8, 0x30u8);
    lemma_single_code(c, seq![0x39u8, 0x30], 90i32);
    lemma_parse_two(0x33u8, 0x30u8);
    lemma_single_code(c, seq![0x33u8, 0x30], 30i32);
    lemma_parse_two(0x33u8, 0x37u8);
    lemma_single_code(c, seq![0x33u8, 0x37], 37i32);
    lemma_parse_two(0x33u8, 0x39u8);
    lemma_single_code(c, seq![0x33u8, 0x39], 39i32);
    lemma_parse_two(0x39u8, 0x37u8);
    lemma_single_code(c, seq![0x39u8, 0x37], 97i32);
    lemma_parse_one(0x32u8);
    lemma_single_code(c, seq![0x32u8], 2i32);
    lemma_parse_one(0x30u8);
    lemma_single_code(c, seq![0x30u8], 0i32);
    lemma_parse_one(0x31u8);
    lemma_single_code(c, seq![0x31u8], 1i32);
}

} // verus!
