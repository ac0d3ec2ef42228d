//! What it takes to start the shell of a session, and what a queued send
//! carries.
use vstd::prelude::*;
use crate::config::Shell;
use crate::shell_integration::Integration;
use crate::state::model::strs_view;
use crate::text::{
    chars_of, lossy_decode, push_lossy, string_of, strip_pred, trim_end_by, trim_end_len, utf8_ok,
    utf8_valid,
};

verus! {

/// How to start a session's shell.
#[derive(Debug, Clone)]
pub struct SpawnSpec {
    pub shell: Shell,
    pub login_shell: bool,
    /// The executable to run.
    pub program: String,
    /// The real starting directory; home when absent.
    pub cwd: Option<String>,
    pub rows: u16,
    pub cols: u16,
}

/// The command line a `Send` request carries: its text without the
/// trailing newlines; nothing when the bytes are not UTF-8.
pub open spec fn sent_command_spec(bytes: Seq<u8>) -> Seq<char> {
    if utf8_ok(bytes) {
        trim_end_by(lossy_decode(bytes), strip_pred(false, '\n'))
    } else {
        Seq::empty()
    }
}

/// The command line a `Send` request carries (for recognising its echo).
pub fn sent_command(bytes: &[u8]) -> (r: String)
    ensures
        r@ == sent_command_spec(bytes@),
{
    if !utf8_valid(bytes) {
        return String::new();
    }
    let mut text = String::new();
    push_lossy(&mut text, bytes);
    assert(text@ =~= lossy_decode(bytes@));
    let v = chars_of(text.as_str());
    let k = trim_end_len(v.as_slice(), '\n');
    string_of(&v.as_slice()[0..k])
}

/// The environment pairs as views.
pub open spec fn pairs_view(v: Seq<(String, String)>) -> Seq<(Seq<char>, Seq<char>)> {
    v.map_values(|p: (String, String)| (p.0@, p.1@))
}

/// The shell's arguments: `-l` for a login shell unless the integration
/// suppresses it, then the integration's own arguments.
pub open spec fn shell_args_spec(login_shell: bool, integ: Option<Integration>) -> Seq<Seq<char>> {
    let suppress = match integ {
        Some(i) => i.suppress_login,
        None => false,
    };
    let login: Seq<Seq<char>> = if login_shell && !suppress {
        seq!["-l"@]
    } else {
        seq![]
    };
    login + match integ {
        Some(i) => strs_view(i.args@),
        None => seq![],
    }
}

/// The shell's extra environment: the integration's variables, then
/// `TERM=xterm-256color`.
pub open spec fn shell_env_spec(integ: Option<Integration>) -> Seq<(Seq<char>, Seq<char>)> {
    let base: Seq<(Seq<char>, Seq<char>)> = match integ {
        Some(i) => pairs_view(i.env@),
        None => seq![],
    };
    base.push(("TERM"@, "xterm-256color"@))
}

/// The arguments and the environment the shell is started with (see
/// `shell_args_spec` and `shell_env_spec`).
pub fn shell_command(login_shell: bool, integ: &Option<Integration>) -> (r: (Vec<String>, Vec<(String, String)>))
    ensures
        strs_view(r.0@) == shell_args_spec(login_shell, *integ),
        pairs_view(r.1@) == shell_env_spec(*integ),
{
    let suppress = match integ {
        Some(i) => i.suppress_login,
        None => false,
    };
    let mut args: Vec<String> = Vec::new();
    if login_shell && !suppress {
        args.push(String::from_str("-l"));
    }
    let mut env: Vec<(String, String)> = Vec::new();
    if let Some(i) = integ {
        let ghost a0 = args@;
        let mut j: usize = 0;
        while j < i.args.len()
            invariant
                j <= i.args@.len(),
                args@.len() == a0.len() + j,
                forall|k: int| 0 <= k < a0.len() ==> #[trigger] args@[k] == a0[k],
                forall|k: int| 0 <= k < j ==> args@[a0.len() + k]@ == #[trigger] i.args@[k]@,
            decreases i.args@.len() - j,
        {
            args.push(i.args[j].clone());
            j = j + 1;
        }
        assert(strs_view(args@) =~= strs_view(a0) + strs_view(i.args@));
        let mut q: usize = 0;
        while q < i.env.len()
            invariant
                q <= i.env@.len(),
                env@.len() == q,
                forall|k: int| 0 <= k < q ==> (#[trigger] env@[k]).0@ == i.env@[k].0@ && env@[k].1@ == i.env@[k].1@,
            decreases i.env@.len() - q,
        {
            let k = i.env[q].0.clone();
            let v = i.env[q].1.clone();
            env.push((k, v));
            q = q + 1;
        }
        assert(pairs_view(env@) =~= pairs_view(i.env@));
    } else {
        assert(strs_view(args@) =~= shell_args_spec(login_shell, *integ));
    }
    let ghost e0 = env@;
    env.push((String::from_str("TERM"), String::from_str("xterm-256color")));
    assert(pairs_view(env@) =~= pairs_view(e0).push(("TERM"@, "xterm-256color"@)));
    (args, env)
}

} // verus!
