//! Decimal numbers: parsing digits out of terminal bytes and printing numbers.
use vstd::prelude::*;
use crate::text::push_char;

verus! {

/// Whether `b` is an ASCII decimal digit.
pub open spec fn is_digit(b: u8) -> bool {
    0x30 <= b <= 0x39
}

/// Whether every byte of `s` is an ASCII decimal digit.
pub open spec fn all_digits(s: Seq<u8>) -> bool {
    forall|i: int| 0 <= i < s.len() ==> is_digit(#[trigger] s[i])
}

/// The value of a string of decimal digits.
pub open spec fn digits_value(s: Seq<u8>) -> nat
    decreases s.len(),
{
    if s.len() == 0 {
        0
    } else {
        digits_value(s.drop_last()) * 10 + (s.last() - 0x30) as nat
    }
}

/// `str::parse::<i32>` on an ASCII string: an optional sign, at least one
/// digit, nothing else, and a value that fits.
pub open spec fn parse_i32(s: Seq<u8>) -> Option<i32> {
    let neg = s.len() > 0 && s[0] == 0x2d;
    let ds = if s.len() > 0 && (s[0] == 0x2d || s[0] == 0x2b) {
        s.drop_first()
    } else {
        s
    };
    let v: int = if neg {
        -(digits_value(ds) as int)
    } else {
        digits_value(ds) as int
    };
    if ds.len() == 0 || !all_digits(ds) || v < i32::MIN || v > i32::MAX {
        None
    } else {
        Some(v as i32)
    }
}

/// `str::parse::<u64>` on a string that starts with a digit or is empty.
pub open spec fn parse_u64_digits(s: Seq<u8>) -> Option<u64> {
    if s.len() == 0 || !all_digits(s) || digits_value(s) > u64::MAX {
        None
    } else {
        Some(digits_value(s) as u64)
    }
}

pub proof fn lemma_digits_value_prefix(s: Seq<u8>, i: int)
    requires
        0 <= i <= s.len(),
        all_digits(s),
    ensures
        digits_value(s.take(i)) <= digits_value(s),
    decreases s.len() - i,
{
    if i < s.len() {
        assert(s.take(i + 1).drop_last() =~= s.take(i));
        lemma_digits_value_prefix(s, i + 1);
    } else {
        assert(s.take(i) =~= s);
    }
}

/// Value of the digits `s[from..to]`, or `None` when a byte is not a digit, the
/// range is empty, or the value exceeds `limit`.
fn digits_upto(s: &[u8], from: usize, to: usize, limit: u64) -> (r: Option<u64>)
    requires
        from <= to <= s@.len(),
        limit >= 9,
    ensures
        ({
            let d = s@.subrange(from as int, to as int);
            match r {
                Some(v) => d.len() > 0 && all_digits(d) && v == digits_value(d) && v <= limit,
                None => d.len() == 0 || !all_digits(d) || digits_value(d) > limit,
            }
        }),
{
    let ghost d = s@.subrange(from as int, to as int);
    if from == to {
        return None;
    }
    let mut acc: u64 = 0;
    let mut i: usize = from;
    while i < to
        invariant
            from <= i <= to <= s@.len(),
            d == s@.subrange(from as int, to as int),
            all_digits(d.take(i - from)),
            acc == digits_value(d.take(i - from)),
            acc <= limit,
            limit >= 9,
        decreases to - i,
    {
        let b = s[i];
        assert(d[i - from] == b);
        assert(d.take(i - from + 1).drop_last() =~= d.take(i - from));
        if b < 0x30 || b > 0x39 {
            assert(!all_digits(d)) by {
                assert(!is_digit(d[i - from]));
            }
            return None;
        }
        let dig = (b - 0x30) as u64;
        if acc > (limit - dig) / 10 {
            proof {
                assert(acc * 10 + dig > limit) by (nonlinear_arith)
                    requires
                        acc > (limit - dig) / 10,
                        dig <= limit,
                ;
                assert(all_digits(d.take(i - from + 1)));
                if all_digits(d) {
                    lemma_digits_value_prefix(d, i - from + 1);
                }
            }
            return None;
        }
        proof {
            assert(acc * 10 + dig <= limit) by (nonlinear_arith)
                requires
                    acc <= (limit - dig) / 10,
                    dig <= limit,
            ;
        }
        acc = acc * 10 + dig;
        i = i + 1;
        assert(all_digits(d.take(i - from))) by {
            assert forall|k: int| 0 <= k < i - from implies is_digit(#[trigger] d.take(i - from)[k]) by {
                if k < i - from - 1 {
                    assert(d.take(i - from)[k] == d.take(i - from - 1)[k]);
                }
            }
        }
    }
    assert(d.take(to - from) =~= d);
    Some(acc)
}

/// `str::parse::<i32>` on the ASCII bytes `s[from..to]`.
pub fn parse_i32_range(s: &[u8], from: usize, to: usize) -> (r: Option<i32>)
    requires
        from <= to <= s@.len(),
    ensures
        r == parse_i32(s@.subrange(from as int, to as int)),
{
    let ghost t = s@.subrange(from as int, to as int);
    if from == to {
        return None;
    }
    let first = s[from];
    assert(t[0] == first);
    let neg = first == 0x2d;
    let start = if first == 0x2d || first == 0x2b {
        from + 1
    } else {
        from
    };
    assert(s@.subrange(start as int, to as int) =~= (if first == 0x2d || first == 0x2b {
        t.drop_first()
    } else {
        t
    }));
    match digits_upto(s, start, to, 2147483648) {
        None => None,
        Some(v) => {
            if neg {
                Some((0 - (v as i64)) as i32)
            } else if v <= 2147483647 {
                Some(v as i32)
            } else {
                None
            }
        },
    }
}

/// `str::parse::<u64>` on bytes `s[from..to]` that start with a digit (or are empty).
pub fn parse_u64_range(s: &[u8], from: usize, to: usize) -> (r: Option<u64>)
    requires
        from <= to <= s@.len(),
    ensures
        r == parse_u64_digits(s@.subrange(from as int, to as int)),
{
    digits_upto(s, from, to, 0xffff_ffff_ffff_ffff)
}

/// The character of a decimal digit.
pub open spec fn digit_char(d: int) -> char {
    ((0x30 + d) as u32) as char
}

/// Decimal notation of `n` (`format!("{n}")`).
pub open spec fn decimal(n: nat) -> Seq<char>
    decreases n,
{
    if n < 10 {
        seq![digit_char(n as int)]
    } else {
        decimal(n / 10).push(digit_char((n % 10) as int))
    }
}

/// Decimal notation of `n` padded with zeros to two places (`format!("{n:02}")`).
pub open spec fn decimal2(n: nat) -> Seq<char> {
    if n < 10 {
        seq!['0'].add(decimal(n))
    } else {
        decimal(n)
    }
}

fn digit(d: u64) -> (c: char)
    requires
        d < 10,
    ensures
        c == digit_char(d as int),
{
    let b: u8 = (0x30 + d) as u8;
    b as char
}

/// Appends the decimal notation of `n`.
pub fn push_decimal(buf: &mut String, n: u64)
    ensures
        final(buf)@ == old(buf)@ + decimal(n as nat),
    decreases n,
{
    if n < 10 {
        push_char(buf, digit(n));
        assert(old(buf)@.push(digit_char(n as int)) =~= old(buf)@ + decimal(n as nat));
    } else {
        push_decimal(buf, n / 10);
        push_char(buf, digit(n % 10));
        assert(buf@ =~= old(buf)@ + decimal(n as nat));
    }
}

/// Appends the decimal notation of `n`, zero-padded to two places.
pub fn push_decimal2(buf: &mut String, n: u64)
    ensures
        final(buf)@ == old(buf)@ + decimal2(n as nat),
{
    if n < 10 {
        push_char(buf, '0');
    }
    push_decimal(buf, n);
    assert(buf@ =~= old(buf)@ + decimal2(n as nat));
}

/// Decimal notation has one digit below ten and more from ten on.
pub proof fn lemma_decimal_len(n: nat)
    ensures
        n < 10 ==> decimal(n).len() == 1,
        n >= 10 ==> decimal(n).len() >= 2,
    decreases n,
{
    if n >= 10 {
        lemma_decimal_len(n / 10);
    }
}

/// Different numbers have different decimal notations.
pub proof fn lemma_decimal_injective(n: nat, m: nat)
    requires
        decimal(n) == decimal(m),
    ensures
        n == m,
    decreases n,
{
    lemma_decimal_len(n);
    lemma_decimal_len(m);
    if n < 10 {
        assert(m < 10);
        assert(decimal(n) == seq![digit_char(n as int)]);
        assert(decimal(m) == seq![digit_char(m as int)]);
        assert(decimal(n)[0] == digit_char(n as int));
        assert(decimal(m)[0] == digit_char(m as int));
        assert(decimal(n)[0] == decimal(m)[0]);
        assert(digit_char(n as int) == digit_char(m as int));
        assert((digit_char(n as int) as u32) == 0x30 + n);
        assert((digit_char(m as int) as u32) == 0x30 + m);
        assert(n == m);
    } else {
        let dn = decimal(n);
        let dm = decimal(m);
        assert(dn.drop_last() == dm.drop_last());
        assert(dn.last() == dm.last());
        assert(decimal(n / 10) =~= dn.drop_last());
        assert(decimal(m / 10) =~= dm.drop_last());
        lemma_decimal_injective(n / 10, m / 10);
        assert(m >= 10);
        assert(digit_char((n % 10) as int) == digit_char((m % 10) as int));
        assert((digit_char((n % 10) as int) as u32) == 0x30 + n % 10);
        assert((digit_char((m % 10) as int) as u32) == 0x30 + m % 10);
        assert(n % 10 == m % 10);
        assert(n / 10 == m / 10);
        assert(n == 10 * (n / 10) + n % 10);
        assert(m == 10 * (m / 10) + m % 10);
    }
}

} // verus!
