//! Text helpers: lossy UTF-8 decoding of terminal bytes and small string
//! utilities that the rest of the library builds on.
use vstd::prelude::*;
use vstd::slice::slice_to_vec;
use vstd::utf8::*;

verus! {

/// The characters of an optional string.
pub open spec fn opt_str(o: Option<String>) -> Option<Seq<char>> {
    match o {
        Some(s) => Some(s@),
        None => None,
    }
}

/// U+FFFD REPLACEMENT CHARACTER, emitted for every ill-formed byte sequence.
pub open spec fn replacement() -> char {
    '\u{FFFD}'
}

/// Appends one character to a string.
///
/// Wraps `String::push`, which appends the given `char` to the end of the string.
#[verifier::external_body]
pub(crate) fn push_char(s: &mut String, c: char)
    ensures
        final(s)@ == old(s)@.push(c),
{
    s.push(c);
}

/// Converts a number into the `char` with that scalar value.
///
/// Wraps `char::from_u32`, which returns `Some` exactly for Unicode scalar
/// values (at most 0x10FFFF and outside the surrogate range D800..=DFFF).
#[verifier::external_body]
fn char_from_u32(v: u32) -> (r: Option<char>)
    ensures
        is_scalar(v) ==> r == Some(v as char),
        !is_scalar(v) ==> r is None,
{
    char::from_u32(v)
}

/// Number of bytes announced by the first byte of a UTF-8 sequence
/// (0 for a byte that can never start one).
pub open spec fn utf8_width(b: u8) -> int {
    if b < 0x80 {
        1
    } else if 0xc2 <= b <= 0xdf {
        2
    } else if 0xe0 <= b <= 0xef {
        3
    } else if 0xf0 <= b <= 0xf4 {
        4
    } else {
        0
    }
}

/// Whether `second` may follow the leading byte `first` (this also rules out
/// overlong encodings, surrogates and values above 0x10FFFF).
pub open spec fn second_byte_ok(first: u8, second: u8) -> bool {
    if utf8_width(first) == 2 {
        is_continuation_byte(second)
    } else if first == 0xe0 {
        0xa0 <= second <= 0xbf
    } else if first == 0xed {
        0x80 <= second <= 0x9f
    } else if utf8_width(first) == 3 {
        is_continuation_byte(second)
    } else if first == 0xf0 {
        0x90 <= second <= 0xbf
    } else if first == 0xf4 {
        0x80 <= second <= 0x8f
    } else {
        is_continuation_byte(second)
    }
}

/// What the front of a byte sequence decodes to.
pub enum Utf8Head {
    /// A well-formed character encoded in `len` bytes.
    Scalar { ch: char, len: int },
    /// An ill-formed sequence; `len` bytes (its maximal well-formed prefix,
    /// at least one) are replaced by one U+FFFD.
    Invalid { len: int },
    /// The bytes are a proper prefix of a well-formed character.
    Incomplete,
}

/// Decodes the front of a non-empty byte sequence, as UTF-8 validation does.
pub open spec fn utf8_head(s: Seq<u8>) -> Utf8Head
    recommends
        s.len() > 0,
{
    let b0 = s[0];
    let w = utf8_width(b0);
    if w == 1 {
        Utf8Head::Scalar { ch: (b0 as u32) as char, len: 1 }
    } else if w == 0 {
        Utf8Head::Invalid { len: 1 }
    } else if s.len() < 2 {
        Utf8Head::Incomplete
    } else if !second_byte_ok(b0, s[1]) {
        Utf8Head::Invalid { len: 1 }
    } else if w == 2 {
        Utf8Head::Scalar { ch: codepoint_width_2(b0, s[1]) as char, len: 2 }
    } else if s.len() < 3 {
        Utf8Head::Incomplete
    } else if !is_continuation_byte(s[2]) {
        Utf8Head::Invalid { len: 2 }
    } else if w == 3 {
        Utf8Head::Scalar { ch: codepoint_width_3(b0, s[1], s[2]) as char, len: 3 }
    } else if s.len() < 4 {
        Utf8Head::Incomplete
    } else if !is_continuation_byte(s[3]) {
        Utf8Head::Invalid { len: 3 }
    } else {
        Utf8Head::Scalar { ch: codepoint_width_4(b0, s[1], s[2], s[3]) as char, len: 4 }
    }
}

/// Number of bytes that the head of `s` consumes (0 when incomplete).
pub open spec fn head_len(s: Seq<u8>) -> int {
    match utf8_head(s) {
        Utf8Head::Scalar { len, .. } => len,
        Utf8Head::Invalid { len } => len,
        Utf8Head::Incomplete => 0,
    }
}

/// Characters produced by the head of `s` (U+FFFD for an ill-formed sequence).
pub open spec fn head_char(s: Seq<u8>) -> char {
    match utf8_head(s) {
        Utf8Head::Scalar { ch, .. } => ch,
        _ => replacement(),
    }
}

pub proof fn lemma_head_len_bounds(s: Seq<u8>)
    requires
        s.len() > 0,
    ensures
        utf8_head(s) !is Incomplete ==> 1 <= head_len(s) <= s.len(),
        utf8_head(s) is Incomplete ==> 1 <= s.len() <= 3,
{
}

/// Lossy decoding: every ill-formed sequence becomes one U+FFFD, and an
/// incomplete sequence at the very end becomes one U+FFFD as well.
pub open spec fn lossy_decode(s: Seq<u8>) -> Seq<char>
    decreases s.len(),
{
    if s.len() == 0 {
        seq![]
    } else if utf8_head(s) is Incomplete {
        seq![replacement()]
    } else {
        proof {
            lemma_head_len_bounds(s);
        }
        seq![head_char(s)] + lossy_decode(s.skip(head_len(s)))
    }
}

/// Decoding of a chunk whose end may cut a character in two: the characters
/// of the complete part, and the trailing bytes kept for the next chunk.
pub open spec fn partial_decode(s: Seq<u8>) -> (Seq<char>, Seq<u8>)
    decreases s.len(),
{
    if s.len() == 0 {
        (seq![], seq![])
    } else if utf8_head(s) is Incomplete {
        (seq![], s)
    } else {
        proof {
            lemma_head_len_bounds(s);
        }
        let rest = partial_decode(s.skip(head_len(s)));
        (seq![head_char(s)] + rest.0, rest.1)
    }
}

/// The head decoded in executable code.
enum HeadExec {
    Scalar(char, usize),
    Invalid(usize),
    Incomplete,
}

proof fn lemma_scalar_2(b0: u8, b1: u8)
    requires
        0xc2 <= b0 <= 0xdf,
        0x80 <= b1 <= 0xbf,
    ensures
        is_scalar(codepoint_width_2(b0, b1)),
{
    assert(0x80 <= codepoint_width_2(b0, b1) <= 0x7ff) by (bit_vector)
        requires
            0xc2 <= b0 <= 0xdf,
            0x80 <= b1 <= 0xbf,
    ;
}

proof fn lemma_scalar_3(b0: u8, b1: u8, b2: u8)
    requires
        0xe0 <= b0 <= 0xef,
        second_byte_ok(b0, b1),
        0x80 <= b1 <= 0xbf,
        0x80 <= b2 <= 0xbf,
    ensures
        is_scalar(codepoint_width_3(b0, b1, b2)),
{
    assert(0x800 <= codepoint_width_3(b0, b1, b2) <= 0xffff) by (bit_vector)
        requires
            0xe0 <= b0 <= 0xef,
            0x80 <= b1 <= 0xbf,
            0x80 <= b2 <= 0xbf,
            b0 == 0xe0 ==> 0xa0 <= b1,
    ;
    assert(!(0xd800 <= codepoint_width_3(b0, b1, b2) <= 0xdfff)) by (bit_vector)
        requires
            0xe0 <= b0 <= 0xef,
            0x80 <= b1 <= 0xbf,
            0x80 <= b2 <= 0xbf,
            b0 == 0xed ==> b1 <= 0x9f,
    ;
}

proof fn lemma_scalar_4(b0: u8, b1: u8, b2: u8, b3: u8)
    requires
        0xf0 <= b0 <= 0xf4,
        second_byte_ok(b0, b1),
        0x80 <= b1 <= 0xbf,
        0x80 <= b2 <= 0xbf,
        0x80 <= b3 <= 0xbf,
    ensures
        is_scalar(codepoint_width_4(b0, b1, b2, b3)),
{
    assert(0x10000 <= codepoint_width_4(b0, b1, b2, b3) <= 0x10ffff) by (bit_vector)
        requires
            0xf0 <= b0 <= 0xf4,
            0x80 <= b1 <= 0xbf,
            0x80 <= b2 <= 0xbf,
            0x80 <= b3 <= 0xbf,
            b0 == 0xf0 ==> 0x90 <= b1,
            b0 == 0xf4 ==> b1 <= 0x8f,
    ;
}

fn is_cont(b: u8) -> (r: bool)
    ensures
        r == is_continuation_byte(b),
{
    0x80 <= b && b <= 0xbf
}

fn second_ok(first: u8, second: u8) -> (r: bool)
    ensures
        r == second_byte_ok(first, second),
{
    if 0xc2 <= first && first <= 0xdf {
        is_cont(second)
    } else if first == 0xe0 {
        0xa0 <= second && second <= 0xbf
    } else if first == 0xed {
        0x80 <= second && second <= 0x9f
    } else if 0xe0 <= first && first <= 0xef {
        is_cont(second)
    } else if first == 0xf0 {
        0x90 <= second && second <= 0xbf
    } else if first == 0xf4 {
        0x80 <= second && second <= 0x8f
    } else {
        is_cont(second)
    }
}

/// Decodes the head of `s[start..]`.
fn decode_head(s: &[u8], start: usize) -> (r: HeadExec)
    requires
        start < s@.len(),
    ensures
        ({
            let t = s@.skip(start as int);
            match r {
                HeadExec::Scalar(c, n) => utf8_head(t) == (Utf8Head::Scalar { ch: c, len: n as int }),
                HeadExec::Invalid(n) => utf8_head(t) == (Utf8Head::Invalid { len: n as int }),
                HeadExec::Incomplete => utf8_head(t) is Incomplete,
            }
        }),
{
    let ghost t = s@.skip(start as int);
    let len = s.len();
    let b0 = s[start];
    assert(t[0] == b0);
    if b0 < 0x80 {
        let c = b0 as char;
        assert(c == (b0 as u32) as char);
        return HeadExec::Scalar(c, 1);
    }
    let w: usize = if 0xc2 <= b0 && b0 <= 0xdf {
        2
    } else if 0xe0 <= b0 && b0 <= 0xef {
        3
    } else if 0xf0 <= b0 && b0 <= 0xf4 {
        4
    } else {
        0
    };
    if w == 0 {
        return HeadExec::Invalid(1);
    }
    if len - start < 2 {
        return HeadExec::Incomplete;
    }
    let b1 = s[start + 1];
    assert(t[1] == b1);
    if !second_ok(b0, b1) {
        return HeadExec::Invalid(1);
    }
    if w == 2 {
        let v: u32 = (((b0 & 0x1f) as u32) << 6) | ((b1 & 0x3f) as u32);
        assert(v == codepoint_width_2(b0, b1));
        proof {
            lemma_scalar_2(b0, b1);
        }
        match char_from_u32(v) {
            Some(c) => {
                return HeadExec::Scalar(c, 2);
            },
            None => {
                return HeadExec::Incomplete;
            },
        }
    }
    if len - start < 3 {
        return HeadExec::Incomplete;
    }
    let b2 = s[start + 2];
    assert(t[2] == b2);
    if !is_cont(b2) {
        return HeadExec::Invalid(2);
    }
    if w == 3 {
        let v: u32 = (((b0 & 0x0f) as u32) << 12) | (((b1 & 0x3f) as u32) << 6) | ((b2
            & 0x3f) as u32);
        assert(v == codepoint_width_3(b0, b1, b2));
        proof {
            lemma_scalar_3(b0, b1, b2);
        }
        match char_from_u32(v) {
            Some(c) => {
                return HeadExec::Scalar(c, 3);
            },
            None => {
                return HeadExec::Incomplete;
            },
        }
    }
    if len - start < 4 {
        return HeadExec::Incomplete;
    }
    let b3 = s[start + 3];
    assert(t[3] == b3);
    if !is_cont(b3) {
        return HeadExec::Invalid(3);
    }
    let v: u32 = (((b0 & 0x07) as u32) << 18) | (((b1 & 0x3f) as u32) << 12) | (((b2
        & 0x3f) as u32) << 6) | ((b3 & 0x3f) as u32);
    assert(v == codepoint_width_4(b0, b1, b2, b3));
    proof {
        lemma_scalar_4(b0, b1, b2, b3);
    }
    match char_from_u32(v) {
        Some(c) => HeadExec::Scalar(c, 4),
        None => HeadExec::Incomplete,
    }
}

/// Appends the lossy decoding of `bytes` to `buf` (`String::from_utf8_lossy`).
pub fn push_lossy(buf: &mut String, bytes: &[u8])
    ensures
        final(buf)@ == old(buf)@ + lossy_decode(bytes@),
{
    let mut i: usize = 0;
    assert(bytes@.skip(0) =~= bytes@);
    while i < bytes.len()
        invariant
            i <= bytes@.len(),
            old(buf)@ + lossy_decode(bytes@) == buf@ + lossy_decode(bytes@.skip(i as int)),
        decreases bytes@.len() - i,
    {
        let ghost t = bytes@.skip(i as int);
        proof {
            lemma_head_len_bounds(t);
        }
        match decode_head(bytes, i) {
            HeadExec::Scalar(c, n) => {
                push_char(buf, c);
                proof {
                    assert(t.skip(n as int) =~= bytes@.skip(i + n));
                }
                i = i + n;
            },
            HeadExec::Invalid(n) => {
                push_char(buf, '\u{FFFD}');
                proof {
                    assert(t.skip(n as int) =~= bytes@.skip(i + n));
                }
                i = i + n;
            },
            HeadExec::Incomplete => {
                push_char(buf, '\u{FFFD}');
                proof {
                    assert(bytes@.skip(bytes@.len() as int) =~= Seq::<u8>::empty());
                    assert(buf@ + lossy_decode(bytes@.skip(bytes@.len() as int)) =~= buf@);
                }
                i = bytes.len();
            },
        }
    }
    proof {
        assert(bytes@.skip(i as int) =~= Seq::<u8>::empty());
        assert(buf@ + lossy_decode(bytes@.skip(i as int)) =~= buf@);
    }
}

/// Decodes the complete part of `pending` into `buf` and keeps in `pending`
/// only a trailing character cut off by the end of the chunk.
pub fn push_partial(buf: &mut String, pending: &mut Vec<u8>)
    ensures
        final(buf)@ == old(buf)@ + partial_decode(old(pending)@).0,
        final(pending)@ == partial_decode(old(pending)@).1,
{
    let ghost p0 = pending@;
    let ghost b0 = buf@;
    let mut i: usize = 0;
    let mut cut = false;
    assert(p0.skip(0) =~= p0);
    while i < pending.len() && !cut
        invariant
            i <= p0.len(),
            pending@ == p0,
            b0 + partial_decode(p0).0 == buf@ + partial_decode(p0.skip(i as int)).0,
            partial_decode(p0).1 == partial_decode(p0.skip(i as int)).1,
            cut ==> i < p0.len() && partial_decode(p0.skip(i as int)) == (Seq::<char>::empty(), p0.skip(i as int)),
        decreases p0.len() - i, if cut { 0int } else { 1int },
    {
        let ghost t = p0.skip(i as int);
        proof {
            lemma_head_len_bounds(t);
        }
        match decode_head(pending.as_slice(), i) {
            HeadExec::Scalar(c, n) => {
                push_char(buf, c);
                proof {
                    assert(t.skip(n as int) =~= p0.skip(i + n));
                }
                i = i + n;
            },
            HeadExec::Invalid(n) => {
                push_char(buf, '\u{FFFD}');
                proof {
                    assert(t.skip(n as int) =~= p0.skip(i + n));
                }
                i = i + n;
            },
            HeadExec::Incomplete => {
                cut = true;
            },
        }
    }
    if cut {
        let len = pending.len();
        let rest = slice_to_vec(&pending.as_slice()[i..len]);
        assert(rest@ =~= p0.skip(i as int));
        assert(buf@ + partial_decode(p0.skip(i as int)).0 =~= buf@);
        *pending = rest;
    } else {
        proof {
            assert(p0.skip(i as int) =~= Seq::<u8>::empty());
        }
        *pending = Vec::new();
        assert(buf@ =~= b0 + partial_decode(p0).0);
    }
}

/// The characters of a string slice, in order.
pub fn chars_of(s: &str) -> (v: Vec<char>)
    ensures
        v@ == s@,
{
    let mut v: Vec<char> = Vec::new();
    for c in it: s.chars()
        invariant
            v@ == it.seq().take(it.index() as int),
    {
        v.push(c);
    }
    v
}

/// A string holding exactly the given characters.
pub fn string_of(v: &[char]) -> (s: String)
    ensures
        s@ == v@,
{
    let mut s = String::new();
    let mut i: usize = 0;
    while i < v.len()
        invariant
            i <= v@.len(),
            s@ == v@.take(i as int),
        decreases v@.len() - i,
    {
        push_char(&mut s, v[i]);
        assert(v@.take(i + 1) =~= v@.take(i as int).push(v@[i as int]));
        i = i + 1;
    }
    assert(v@.take(i as int) =~= v@);
    s
}

/// Whether two character sequences are equal.
pub fn chars_eq(a: &[char], b: &[char]) -> (r: bool)
    ensures
        r == (a@ == b@),
{
    if a.len() != b.len() {
        return false;
    }
    let mut i: usize = 0;
    while i < a.len()
        invariant
            i <= a@.len(),
            a@.len() == b@.len(),
            forall|j: int| 0 <= j < i ==> a@[j] == b@[j],
        decreases a@.len() - i,
    {
        if a[i] != b[i] {
            return false;
        }
        i = i + 1;
    }
    assert(a@ =~= b@);
    true
}

/// Whether two strings hold the same characters.
pub fn str_eq(a: &str, b: &str) -> (r: bool)
    ensures
        r == (a@ == b@),
{
    let va = chars_of(a);
    let vb = chars_of(b);
    chars_eq(va.as_slice(), vb.as_slice())
}

/// Unicode `White_Space` (what `char::is_whitespace` tests).
pub open spec fn is_ws(c: char) -> bool {
    ||| '\u{9}' <= c <= '\u{d}'
    ||| c == ' '
    ||| c == '\u{85}'
    ||| c == '\u{a0}'
    ||| c == '\u{1680}'
    ||| '\u{2000}' <= c <= '\u{200a}'
    ||| c == '\u{2028}'
    ||| c == '\u{2029}'
    ||| c == '\u{202f}'
    ||| c == '\u{205f}'
    ||| c == '\u{3000}'
}

pub fn is_ws_exec(c: char) -> (r: bool)
    ensures
        r == is_ws(c),
{
    ('\u{9}' <= c && c <= '\u{d}') || c == ' ' || c == '\u{85}' || c == '\u{a0}' || c
        == '\u{1680}' || ('\u{2000}' <= c && c <= '\u{200a}') || c == '\u{2028}' || c
        == '\u{2029}' || c == '\u{202f}' || c == '\u{205f}' || c == '\u{3000}'
}

/// `s` without leading characters in `strip` (the set is given by a predicate).
pub open spec fn trim_start_by(s: Seq<char>, strip: spec_fn(char) -> bool) -> Seq<char>
    decreases s.len(),
{
    if s.len() > 0 && strip(s[0]) {
        trim_start_by(s.drop_first(), strip)
    } else {
        s
    }
}

/// `s` without trailing characters in `strip`.
pub open spec fn trim_end_by(s: Seq<char>, strip: spec_fn(char) -> bool) -> Seq<char>
    decreases s.len(),
{
    if s.len() > 0 && strip(s.last()) {
        trim_end_by(s.drop_last(), strip)
    } else {
        s
    }
}

/// The characters that trimming removes: whitespace when `ws`, otherwise `c`.
pub open spec fn strip_pred(ws: bool, c: char) -> spec_fn(char) -> bool {
    |x: char| if ws { is_ws(x) } else { x == c }
}

/// `str::trim`: without leading and trailing whitespace.
pub open spec fn trim(s: Seq<char>) -> Seq<char> {
    trim_end_by(trim_start_by(s, strip_pred(true, ' ')), strip_pred(true, ' '))
}

/// `trim_matches(c)`: without leading and trailing copies of `c`.
pub open spec fn trim_char(s: Seq<char>, c: char) -> Seq<char> {
    trim_end_by(trim_start_by(s, strip_pred(false, c)), strip_pred(false, c))
}

proof fn lemma_trim_start_index(s: Seq<char>, strip: spec_fn(char) -> bool, i: int)
    requires
        0 <= i <= s.len(),
        forall|j: int| 0 <= j < i ==> strip(#[trigger] s[j]),
        i == s.len() || !strip(s[i]),
    ensures
        trim_start_by(s, strip) == s.skip(i),
    decreases i,
{
    if i == 0 {
        assert(s.skip(0) =~= s);
    } else {
        assert(s.drop_first().skip(i - 1) =~= s.skip(i));
        assert forall|j: int| 0 <= j < i - 1 implies strip(#[trigger] s.drop_first()[j]) by {
            assert(s.drop_first()[j] == s[j + 1]);
        }
        lemma_trim_start_index(s.drop_first(), strip, i - 1);
    }
}

proof fn lemma_trim_end_index(s: Seq<char>, strip: spec_fn(char) -> bool, k: int)
    requires
        0 <= k <= s.len(),
        forall|j: int| k <= j < s.len() ==> strip(#[trigger] s[j]),
        k == 0 || !strip(s[k - 1]),
    ensures
        trim_end_by(s, strip) == s.take(k),
    decreases s.len() - k,
{
    if k == s.len() {
        assert(s.take(k) =~= s);
    } else {
        assert(s.drop_last().take(k) =~= s.take(k));
        assert forall|j: int| k <= j < s.len() - 1 implies strip(#[trigger] s.drop_last()[j]) by {
            assert(s.drop_last()[j] == s[j]);
        }
        lemma_trim_end_index(s.drop_last(), strip, k);
    }
}

fn strips(x: char, ws: bool, c: char) -> (r: bool)
    ensures
        r == (if ws { is_ws(x) } else { x == c }),
{
    if ws {
        is_ws_exec(x)
    } else {
        x == c
    }
}

/// Bounds `[start, end)` of `v` without leading and trailing characters in
/// `strip`; `ws` selects whitespace, otherwise the single character `c`.
fn trim_bounds(v: &[char], ws: bool, c: char) -> (r: (usize, usize))
    ensures
        r.0 <= r.1 <= v@.len(),
        ws ==> v@.subrange(r.0 as int, r.1 as int) == trim(v@),
        !ws ==> v@.subrange(r.0 as int, r.1 as int) == trim_char(v@, c),
{
    let ghost strip = strip_pred(if ws { true } else { false }, if ws { ' ' } else { c });
    let mut i: usize = 0;
    while i < v.len() && strips(v[i], ws, c)
        invariant
            i <= v@.len(),
            strip == strip_pred(ws, if ws { ' ' } else { c }),
            forall|j: int| 0 <= j < i ==> strip(#[trigger] v@[j]),
        decreases v@.len() - i,
    {
        i = i + 1;
    }
    proof {
        lemma_trim_start_index(v@, strip, i as int);
    }
    let mut k: usize = v.len();
    while k > i && strips(v[k - 1], ws, c)
        invariant
            i <= k <= v@.len(),
            strip == strip_pred(ws, if ws { ' ' } else { c }),
            forall|j: int| k <= j < v@.len() ==> strip(#[trigger] v@[j]),
        decreases k,
    {
        k = k - 1;
    }
    proof {
        let t = v@.skip(i as int);
        assert forall|j: int| k - i <= j < t.len() implies strip(#[trigger] t[j]) by {
            assert(t[j] == v@[j + i]);
        }
        lemma_trim_end_index(t, strip, k - i);
        assert(t.take(k - i) =~= v@.subrange(i as int, k as int));
        if ws {
            assert(strip =~= strip_pred(true, ' '));
        }
    }
    (i, k)
}

/// `str::trim`.
pub fn trimmed(s: &str) -> (r: String)
    ensures
        r@ == trim(s@),
{
    let v = chars_of(s);
    let (a, b) = trim_bounds(v.as_slice(), true, ' ');
    string_of(&v.as_slice()[a..b])
}

/// `str::trim_matches(c)` for a single character `c`.
pub fn trimmed_char(s: &str, c: char) -> (r: String)
    ensures
        r@ == trim_char(s@, c),
{
    let v = chars_of(s);
    let (a, b) = trim_bounds(v.as_slice(), false, c);
    string_of(&v.as_slice()[a..b])
}

/// Whether `s` is well-formed UTF-8 (as `str::from_utf8` accepts it).
pub open spec fn utf8_ok(s: Seq<u8>) -> bool
    decreases s.len(),
{
    s.len() == 0 || (utf8_head(s) is Scalar && {
        proof {
            lemma_head_len_bounds(s);
        }
        utf8_ok(s.skip(head_len(s)))
    })
}

/// `str::from_utf8(s).is_ok()`.
pub fn utf8_valid(s: &[u8]) -> (r: bool)
    ensures
        r == utf8_ok(s@),
{
    let mut i: usize = 0;
    assert(s@.skip(0) =~= s@);
    while i < s.len()
        invariant
            i <= s@.len(),
            utf8_ok(s@) == utf8_ok(s@.skip(i as int)),
        decreases s@.len() - i,
    {
        let ghost t = s@.skip(i as int);
        proof {
            lemma_head_len_bounds(t);
        }
        match decode_head(s, i) {
            HeadExec::Scalar(_, n) => {
                assert(t.skip(n as int) =~= s@.skip(i + n));
                i = i + n;
            },
            _ => {
                return false;
            },
        }
    }
    true
}

/// An optional index as an integer.
pub open spec fn opt_idx(r: Option<usize>) -> Option<int> {
    match r {
        Some(i) => Some(i as int),
        None => None,
    }
}

/// The last index of `s` whose element satisfies `p`.
pub open spec fn rfind_spec<T>(s: Seq<T>, p: spec_fn(T) -> bool) -> Option<int>
    decreases s.len(),
{
    if s.len() == 0 {
        None
    } else if p(s.last()) {
        Some(s.len() - 1)
    } else {
        rfind_spec(s.drop_last(), p)
    }
}

/// What `rfind_spec` finds: the last matching index, or that none matches.
pub proof fn lemma_rfind<T>(s: Seq<T>, p: spec_fn(T) -> bool)
    ensures
        match rfind_spec(s, p) {
            Some(k) => 0 <= k < s.len() && p(s[k]) && forall|j: int| k < j < s.len() ==> !p(#[trigger] s[j]),
            None => forall|j: int| 0 <= j < s.len() ==> !p(#[trigger] s[j]),
        },
    decreases s.len(),
{
    if s.len() > 0 && !p(s.last()) {
        let d = s.drop_last();
        lemma_rfind(d, p);
        match rfind_spec(d, p) {
            Some(k) => {
                assert forall|j: int| k < j < s.len() implies !p(#[trigger] s[j]) by {
                    if j < s.len() - 1 {
                        assert(s[j] == d[j]);
                    }
                }
            },
            None => {
                assert forall|j: int| 0 <= j < s.len() implies !p(#[trigger] s[j]) by {
                    if j < s.len() - 1 {
                        assert(s[j] == d[j]);
                    }
                }
            },
        }
    }
}

/// The last index below `end` of a character in `strip_pred(ws, c)`.
pub fn rfind_in(v: &[char], end: usize, ws: bool, c: char) -> (r: Option<usize>)
    requires
        end <= v@.len(),
    ensures
        opt_idx(r) == rfind_spec(v@.take(end as int), strip_pred(ws, c)),
        r matches Some(k) ==> k < end,
{
    let ghost p = strip_pred(ws, c);
    let mut k: usize = end;
    while k > 0
        invariant
            k <= end <= v@.len(),
            p == strip_pred(ws, c),
            rfind_spec(v@.take(end as int), p) == rfind_spec(v@.take(k as int), p),
        decreases k,
    {
        assert(v@.take(k as int).drop_last() =~= v@.take(k - 1));
        if strips(v[k - 1], ws, c) {
            return Some(k - 1);
        }
        k = k - 1;
    }
    None
}

/// Length of `v` without its trailing copies of `c`.
pub fn trim_end_len(v: &[char], c: char) -> (k: usize)
    ensures
        k <= v@.len(),
        v@.take(k as int) == trim_end_by(v@, strip_pred(false, c)),
{
    let ghost strip = strip_pred(false, c);
    let mut k: usize = v.len();
    while k > 0 && v[k - 1] == c
        invariant
            k <= v@.len(),
            strip == strip_pred(false, c),
            forall|j: int| k <= j < v@.len() ==> strip(#[trigger] v@[j]),
        decreases k,
    {
        k = k - 1;
    }
    proof {
        lemma_trim_end_index(v@, strip, k as int);
    }
    k
}

/// Whether `s` starts with `p`.
pub open spec fn starts_with(s: Seq<char>, p: Seq<char>) -> bool {
    p.len() <= s.len() && s.take(p.len() as int) == p
}

/// Whether `v` starts with `p`.
pub fn starts_with_chars(v: &[char], p: &[char]) -> (r: bool)
    ensures
        r == starts_with(v@, p@),
{
    if p.len() > v.len() {
        return false;
    }
    let mut i: usize = 0;
    while i < p.len()
        invariant
            i <= p@.len() <= v@.len(),
            forall|j: int| 0 <= j < i ==> v@[j] == p@[j],
        decreases p@.len() - i,
    {
        if v[i] != p[i] {
            assert(v@.take(p@.len() as int)[i as int] != p@[i as int]);
            return false;
        }
        i = i + 1;
    }
    assert(v@.take(p@.len() as int) =~= p@);
    true
}

/// The head of a sequence is decided by its own bytes: more bytes after a
/// complete (or ill-formed) head do not change it.
pub proof fn lemma_head_extend(s: Seq<u8>, t: Seq<u8>)
    requires
        s.len() > 0,
        utf8_head(s) !is Incomplete,
    ensures
        utf8_head(s + t) == utf8_head(s),
{
    let u = s + t;
    assert(u[0] == s[0]);
    if s.len() >= 2 {
        assert(u[1] == s[1]);
    }
    if s.len() >= 3 {
        assert(u[2] == s[2]);
    }
    if s.len() >= 4 {
        assert(u[3] == s[3]);
    }
}

/// Lossy decoding of a concatenation: the complete characters of the front
/// part, then the rest decoded together.
pub proof fn lemma_lossy_split(p: Seq<u8>, q: Seq<u8>)
    ensures
        lossy_decode(p + q) == partial_decode(p).0 + lossy_decode(partial_decode(p).1 + q),
    decreases p.len(),
{
    if p.len() == 0 {
        assert(p + q =~= q);
        assert(partial_decode(p).1 + q =~= q);
        assert(partial_decode(p).0 + lossy_decode(q) =~= lossy_decode(q));
    } else if utf8_head(p) is Incomplete {
        assert(partial_decode(p).0 + lossy_decode(p + q) =~= lossy_decode(p + q));
    } else {
        lemma_head_len_bounds(p);
        lemma_head_extend(p, q);
        let k = head_len(p);
        assert((p + q).skip(k) =~= p.skip(k) + q);
        lemma_lossy_split(p.skip(k), q);
        let r = partial_decode(p.skip(k));
        assert(seq![head_char(p)] + (r.0 + lossy_decode(r.1 + q)) =~= (seq![head_char(p)] + r.0) + lossy_decode(
            r.1 + q,
        ));
    }
}

/// Decoding a concatenation chunk-wise: the complete characters of the
/// front part, then the rest decoded together.
pub proof fn lemma_partial_split(p: Seq<u8>, q: Seq<u8>)
    ensures
        partial_decode(p + q) == ({
            let a = partial_decode(p);
            let b = partial_decode(a.1 + q);
            (a.0 + b.0, b.1)
        }),
    decreases p.len(),
{
    if p.len() == 0 {
        assert(p + q =~= q);
        assert(partial_decode(p).1 + q =~= q);
        assert(partial_decode(p).0 + partial_decode(q).0 =~= partial_decode(q).0);
    } else if utf8_head(p) is Incomplete {
        assert(partial_decode(p).0 + partial_decode(p + q).0 =~= partial_decode(p + q).0);
    } else {
        lemma_head_len_bounds(p);
        lemma_head_extend(p, q);
        let k = head_len(p);
        assert((p + q).skip(k) =~= p.skip(k) + q);
        lemma_partial_split(p.skip(k), q);
        let r = partial_decode(p.skip(k));
        let b = partial_decode(r.1 + q);
        assert(seq![head_char(p)] + (r.0 + b.0) =~= (seq![head_char(p)] + r.0) + b.0);
    }
}

/// Well-formed UTF-8 decodes completely: nothing is held back, and the
/// characters are those of the lossy decoding.
pub proof fn lemma_partial_valid(s: Seq<u8>)
    requires
        utf8_ok(s),
    ensures
        partial_decode(s) == (lossy_decode(s), Seq::<u8>::empty()),
    decreases s.len(),
{
    if s.len() > 0 {
        lemma_head_len_bounds(s);
        lemma_partial_valid(s.skip(head_len(s)));
    }
}

} // verus!
