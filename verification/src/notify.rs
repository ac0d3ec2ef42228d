//! Keyboard forwarding and the notice sent when a long command finishes.
use vstd::prelude::*;
use crate::num::{decimal, push_decimal};
use crate::text::{chars_of, push_char};
use crate::ui::central::{elapsed_spec, format_elapsed, hint_spec, truncate_for_hint};

verus! {

/// Whether Ctrl+C / Ctrl+D go to the shell: only while a command runs and
/// no other widget has the keyboard (an idle shell would take Ctrl+D as the
/// end of input).
pub fn should_forward_ctrl(focused_elsewhere: bool, busy: bool) -> (r: bool)
    ensures
        r == (busy && !focused_elsewhere),
{
    busy && !focused_elsewhere
}

/// The shortest run that earns a notice, in seconds.
pub open spec fn notify_after_secs() -> u64 {
    15
}

/// Whether a finished command earns a notice: it ran at least 15 seconds
/// and the window does not have the focus.
pub fn should_notify(elapsed_secs: u64, window_focused: bool) -> (r: bool)
    ensures
        r == (elapsed_secs >= notify_after_secs() && !window_focused),
{
    elapsed_secs >= 15 && !window_focused
}

/// One character inside an AppleScript string literal.
pub open spec fn escape_char(c: char) -> Seq<char> {
    if c == '\\' {
        seq!['\\', '\\']
    } else if c == '"' {
        seq!['\\', '"']
    } else {
        seq![c]
    }
}

/// `s` inside an AppleScript string literal: `\` and `"` escaped.
pub open spec fn escape_spec(s: Seq<char>) -> Seq<char>
    decreases s.len(),
{
    if s.len() == 0 {
        Seq::empty()
    } else {
        escape_spec(s.drop_last()) + escape_char(s.last())
    }
}

/// Escapes `\` and `"` for an AppleScript string literal.
pub fn applescript_escape(s: &str) -> (r: String)
    ensures
        r@ == escape_spec(s@),
{
    let v = chars_of(s);
    let mut out = String::new();
    let mut i: usize = 0;
    while i < v.len()
        invariant
            i <= v@.len(),
            out@ == escape_spec(v@.take(i as int)),
        decreases v@.len() - i,
    {
        let c = v[i];
        if c == '\\' {
            push_char(&mut out, '\\');
            push_char(&mut out, '\\');
        } else if c == '"' {
            push_char(&mut out, '\\');
            push_char(&mut out, '"');
        } else {
            push_char(&mut out, c);
        }
        assert(v@.take(i + 1).drop_last() =~= v@.take(i as int));
        assert(out@ =~= escape_spec(v@.take(i + 1)));
        i = i + 1;
    }
    assert(v@.take(i as int) =~= v@);
    out
}

/// An `i32` in decimal.
pub open spec fn int_text(n: i32) -> Seq<char> {
    if n < 0 {
        seq!['-'] + decimal((-(n as int)) as nat)
    } else {
        decimal(n as nat)
    }
}

fn push_i32(buf: &mut String, n: i32)
    ensures
        final(buf)@ == old(buf)@ + int_text(n),
{
    if n < 0 {
        push_char(buf, '-');
        let m: u64 = (0i64 - (n as i64)) as u64;
        push_decimal(buf, m);
        assert(final(buf)@ =~= old(buf)@ + int_text(n));
    } else {
        push_decimal(buf, n as u64);
    }
}

/// The widest command shown in a notice, in characters.
pub open spec fn notice_cmd_chars() -> nat {
    40
}

/// The body of the notice: the command (cut to 40 characters), the exit
/// code when known, and the elapsed time.
pub open spec fn notify_body_spec(cmd: Seq<char>, exit: Option<i32>, elapsed_secs: u64) -> Seq<char> {
    let shown = hint_spec(cmd, notice_cmd_chars());
    let tail = match exit {
        Some(code) => "exit "@ + int_text(code) + " · "@ + elapsed_spec(elapsed_secs),
        None => elapsed_spec(elapsed_secs),
    };
    "「"@ + shown + " が完了しました ("@ + tail + ")」"@
}

/// The body of the notice for a finished command.
pub fn notify_body(cmd: &str, exit: Option<i32>, elapsed_secs: u64) -> (r: String)
    ensures
        r@ == notify_body_spec(cmd@, exit, elapsed_secs),
{
    let shown = truncate_for_hint(cmd, 40);
    let elapsed = format_elapsed(elapsed_secs);
    let mut s = "「".to_owned();
    s.append(shown.as_str());
    s.append(" が完了しました (");
    match exit {
        Some(code) => {
            s.append("exit ");
            push_i32(&mut s, code);
            s.append(" · ");
            s.append(elapsed.as_str());
        },
        None => {
            s.append(elapsed.as_str());
        },
    }
    s.append(")」");
    assert(s@ =~= notify_body_spec(cmd@, exit, elapsed_secs));
    s
}

/// The AppleScript that shows `body` as a notice titled "tanaterm".
pub open spec fn notification_script_spec(body: Seq<char>) -> Seq<char> {
    "display notification \""@ + escape_spec(body) + "\" with title \"tanaterm\""@
}

/// The AppleScript that shows `body` as a notice (the body is escaped, so
/// it cannot end the string literal).
pub fn notification_script(body: &str) -> (r: String)
    ensures
        r@ == notification_script_spec(body@),
{
    let mut s = "display notification \"".to_owned();
    let escaped = applescript_escape(body);
    s.append(escaped.as_str());
    s.append("\" with title \"tanaterm\"");
    s
}

} // verus!
