//! The running-command card and the hint line of the central pane.
use vstd::prelude::*;
use crate::num::{decimal, decimal2, push_decimal, push_decimal2};
use crate::state::model::{AppState, AppV};
use crate::state::ops::active_index;
use crate::text::{chars_of, opt_str, push_char, string_of};

verus! {

/// Elapsed time: "59s", "1m00s", "1h01m".
pub open spec fn elapsed_spec(secs: u64) -> Seq<char> {
    if secs < 60 {
        decimal(secs as nat).push('s')
    } else if secs < 3600 {
        decimal((secs / 60) as nat).push('m') + decimal2((secs % 60) as nat).push('s')
    } else {
        decimal((secs / 3600) as nat).push('h') + decimal2(((secs % 3600) / 60) as nat).push('m')
    }
}

/// Elapsed time: seconds below a minute, minutes and zero-padded seconds
/// below an hour, else hours and zero-padded minutes.
pub fn format_elapsed(secs: u64) -> (r: String)
    ensures
        r@ == elapsed_spec(secs),
{
    let mut s = String::new();
    if secs < 60 {
        push_decimal(&mut s, secs);
        push_char(&mut s, 's');
    } else if secs < 3600 {
        push_decimal(&mut s, secs / 60);
        push_char(&mut s, 'm');
        push_decimal2(&mut s, secs % 60);
        push_char(&mut s, 's');
    } else {
        push_decimal(&mut s, secs / 3600);
        push_char(&mut s, 'h');
        push_decimal2(&mut s, (secs % 3600) / 60);
        push_char(&mut s, 'm');
    }
    assert(s@ =~= elapsed_spec(secs));
    s
}

/// `s` cut to `max_chars` characters, the last one replaced by `…` when
/// anything was cut.
pub open spec fn hint_spec(s: Seq<char>, max_chars: nat) -> Seq<char> {
    if s.len() <= max_chars {
        s
    } else {
        s.take(max_chars - 1).push('…')
    }
}

/// `s` cut to at most `max_chars` characters (counted as characters, not
/// bytes); when cut, it ends with `…`.
pub fn truncate_for_hint(s: &str, max_chars: usize) -> (r: String)
    requires
        max_chars >= 2,
    ensures
        r@ == hint_spec(s@, max_chars as nat),
{
    let v = chars_of(s);
    if v.len() <= max_chars {
        return s.to_owned();
    }
    let mut r = string_of(&v.as_slice()[0..max_chars - 1]);
    push_char(&mut r, '…');
    assert(v@.subrange(0, max_chars - 1) =~= v@.take(max_chars - 1));
    r
}

/// Whether the active session's newest block is running.
pub open spec fn has_running_spec(st: AppV) -> bool {
    match active_index(st) {
        Some(i) => {
            let bs = st.sessions[i].blocks;
            bs.len() > 0 && bs.last().running
        },
        None => false,
    }
}

/// Whether the active session's newest block is running (the card that
/// shows it is drawn then).
pub fn has_running(state: &AppState) -> (r: bool)
    ensures
        r == has_running_spec(state@),
{
    match state.active() {
        Some(s) => {
            let n = s.blocks.len();
            n > 0 && s.blocks[n - 1].running
        },
        None => false,
    }
}

/// The command of the active session's newest block while it runs.
pub open spec fn busy_command_spec(st: AppV) -> Option<Seq<char>> {
    if has_running_spec(st) {
        Some(st.sessions[active_index(st).unwrap()].blocks.last().cmd)
    } else {
        None
    }
}

/// The command that input would be sent to (the active session's newest
/// block, while it runs).
pub fn busy_command(state: &AppState) -> (r: Option<String>)
    ensures
        opt_str(r) == busy_command_spec(state@),
{
    match state.active() {
        Some(s) => {
            let n = s.blocks.len();
            if n > 0 && s.blocks[n - 1].running {
                Some(s.blocks[n - 1].cmd.clone())
            } else {
                None
            }
        },
        None => None,
    }
}

/// The placeholder of the input line.
pub open spec fn input_hint_spec(busy: Option<Seq<char>>) -> Seq<char> {
    match busy {
        Some(cmd) => "type to send stdin to "@ + hint_spec(cmd, 24) + seq!['…'],
        None => "type a command…"@,
    }
}

/// The placeholder of the input line: while a command runs, it says that
/// input goes to that command's stdin (its text cut to 24 characters).
pub fn input_hint(busy: &Option<String>) -> (r: String)
    ensures
        r@ == input_hint_spec(opt_str(*busy)),
{
    match busy {
        Some(cmd) => {
            let mut r = String::from_str("type to send stdin to ");
            let cut = truncate_for_hint(cmd.as_str(), 24);
            r.append(cut.as_str());
            push_char(&mut r, '…');
            r
        },
        None => String::from_str("type a command…"),
    }
}

/// What the input line's send button is labelled with.
pub open spec fn send_label_spec(busy: bool) -> Seq<char> {
    if busy {
        "send stdin"@
    } else {
        "press"@
    }
}

/// The label beside the send button: "send stdin" while a command runs.
pub fn send_label(busy: bool) -> (r: &'static str)
    ensures
        r@ == send_label_spec(busy),
{
    if busy {
        "send stdin"
    } else {
        "press"
    }
}

} // verus!
