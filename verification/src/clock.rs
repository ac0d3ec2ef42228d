//! The wall clock, and the time of day shown in Japan (UTC+9) as "HH:MM"
//! and "HH:MM:SS".
use vstd::prelude::*;
use crate::num::{decimal2, push_decimal2};
use crate::text::push_char;

verus! {

/// The offset of Japan Standard Time from UTC, in seconds.
pub const JST_OFFSET_SECS: u64 = 32400;

/// Seconds since the Unix epoch, read from the system clock; 0 when the
/// clock is set before the epoch.
///
/// Calls `SystemTime::elapsed` on `UNIX_EPOCH`. Nothing is promised of the
/// value: it is whatever the clock reads.
#[verifier::external_body]
pub(crate) fn now_unix() -> (r: u64) {
    std::time::UNIX_EPOCH.elapsed().map_or(0, |d| d.as_secs())
}

/// "HH:MM" in Japan at `unix_secs`.
pub open spec fn hhmm_spec(unix_secs: u64) -> Seq<char> {
    let t = unix_secs + JST_OFFSET_SECS;
    decimal2(((t / 3600) % 24) as nat) + seq![':'] + decimal2(((t / 60) % 60) as nat)
}

/// "HH:MM:SS" in Japan at `unix_secs`.
pub open spec fn hhmmss_spec(unix_secs: u64) -> Seq<char> {
    let t = unix_secs + JST_OFFSET_SECS;
    hhmm_spec(unix_secs) + seq![':'] + decimal2((t % 60) as nat)
}

/// "HH:MM" in Japan at `unix_secs`.
pub fn format_hhmm(unix_secs: u64) -> (r: String)
    ensures
        r@ == hhmm_spec(unix_secs),
{
    let t: u128 = unix_secs as u128 + JST_OFFSET_SECS as u128;
    let hh: u64 = ((t / 3600) % 24) as u64;
    let mm: u64 = ((t / 60) % 60) as u64;
    let mut s = String::new();
    push_decimal2(&mut s, hh);
    push_char(&mut s, ':');
    push_decimal2(&mut s, mm);
    assert(s@ =~= hhmm_spec(unix_secs));
    s
}

/// "HH:MM:SS" in Japan at `unix_secs`.
pub fn format_hhmmss(unix_secs: u64) -> (r: String)
    ensures
        r@ == hhmmss_spec(unix_secs),
{
    let t: u128 = unix_secs as u128 + JST_OFFSET_SECS as u128;
    let ss: u64 = (t % 60) as u64;
    let mut s = format_hhmm(unix_secs);
    push_char(&mut s, ':');
    push_decimal2(&mut s, ss);
    assert(s@ =~= hhmmss_spec(unix_secs));
    s
}

/// The current time in Japan as "HH:MM".
pub fn now_hhmm() -> (r: String)
    ensures
        exists|t: u64| r@ == hhmm_spec(t),
{
    format_hhmm(now_unix())
}

/// The current time in Japan as "HH:MM:SS".
pub fn now_hhmmss() -> (r: String)
    ensures
        exists|t: u64| r@ == hhmmss_spec(t),
{
    format_hhmmss(now_unix())
}

} // verus!
