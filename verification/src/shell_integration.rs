//! Shell integration: wrapper start-up files that make the shell report
//! block boundaries (OSC 133) and its directory (OSC 7).
//!
//! The user's own start-up files are not changed: wrappers in a directory of
//! their own source them and then add the hooks. For zsh, `ZDOTDIR` points
//! to that directory; for bash, `--rcfile` names the wrapper. This module
//! decides the files, variables and arguments; writing the files is the
//! caller's part.
use vstd::prelude::*;
use crate::config::Shell;
use crate::text::{chars_of, push_char};

verus! {

/// The zsh hooks: OSC 133 A/C/D and OSC 7 from precmd and preexec.
pub const ZSH_INTEGRATION: &'static str = r#"# --- tanaterm shell integration (OSC 133 / OSC 7) ---
if [[ -o interactive ]]; then
  autoload -Uz add-zsh-hook 2>/dev/null
  __tanaterm_osc7() { printf '\e]7;file://%s%s\a' "${HOST}" "${PWD}"; }
  __tanaterm_precmd() {
    local __exit=$?
    printf '\e]133;D;%s\a' "$__exit"
    printf '\e]133;A\a'
    __tanaterm_osc7
  }
  __tanaterm_preexec() { printf '\e]133;C\a'; }
  add-zsh-hook precmd __tanaterm_precmd
  add-zsh-hook preexec __tanaterm_preexec
fi
"#;

/// bash: the user's login and interactive start-up files, sourced as a
/// login shell would.
pub const BASH_SOURCE_USER: &'static str = r#"if [ -f "$HOME/.bash_profile" ]; then source "$HOME/.bash_profile";
elif [ -f "$HOME/.bash_login" ]; then source "$HOME/.bash_login";
elif [ -f "$HOME/.profile" ]; then source "$HOME/.profile"; fi
[ -f "$HOME/.bashrc" ] && source "$HOME/.bashrc""#;

/// The bash hooks: OSC 133 and OSC 7 from `PROMPT_COMMAND` and a `DEBUG`
/// trap (best effort).
pub const BASH_INTEGRATION: &'static str = r#"# --- tanaterm shell integration (OSC 133 / OSC 7) ---
__tanaterm_osc7() { printf '\e]7;file://%s%s\a' "${HOSTNAME}" "${PWD}"; }
__tanaterm_precmd() {
  local __exit=$?
  printf '\e]133;D;%s\a' "$__exit"
  printf '\e]133;A\a'
  __tanaterm_osc7
  __tanaterm_at_prompt=1
}
__tanaterm_preexec() {
  [ -n "$__tanaterm_at_prompt" ] || return
  unset __tanaterm_at_prompt
  printf '\e]133;C\a'
}
case "$PROMPT_COMMAND" in
  *__tanaterm_precmd*) ;;
  *) PROMPT_COMMAND="__tanaterm_precmd${PROMPT_COMMAND:+;$PROMPT_COMMAND}" ;;
esac
trap '__tanaterm_preexec' DEBUG
"#;

/// One start-up file to write into the integration directory.
#[derive(Debug, Clone)]
pub struct RcFile {
    /// The file name inside the directory.
    pub name: String,
    pub contents: String,
}

/// What starting a shell with the integration takes.
#[derive(Debug, Clone)]
pub struct Integration {
    /// The directory that holds the wrappers.
    pub dir: String,
    /// The wrappers to write into it.
    pub files: Vec<RcFile>,
    /// Extra environment variables for the shell.
    pub env: Vec<(String, String)>,
    /// Extra command-line arguments for the shell.
    pub args: Vec<String>,
    /// Start the shell without `-l` (bash ignores `--rcfile` in a login shell).
    pub suppress_login: bool,
}

/// One character of a single-quoted shell word.
pub open spec fn quote_char(c: char) -> Seq<char> {
    if c == '\'' {
        seq!['\'', '\\', '\'', '\'']
    } else {
        seq![c]
    }
}

/// The characters of `s` inside single quotes.
pub open spec fn quoted_body(s: Seq<char>) -> Seq<char>
    decreases s.len(),
{
    if s.len() == 0 {
        Seq::empty()
    } else {
        quoted_body(s.drop_last()) + quote_char(s.last())
    }
}

/// `s` as one single-quoted shell word.
pub open spec fn quote_spec(s: Seq<char>) -> Seq<char> {
    seq!['\''] + quoted_body(s) + seq!['\'']
}

/// `s` as one single-quoted shell word (each `'` written as `'\''`).
pub fn shell_quote(s: &str) -> (r: String)
    ensures
        r@ == quote_spec(s@),
{
    let v = chars_of(s);
    let mut out = String::new();
    push_char(&mut out, '\'');
    let mut i: usize = 0;
    while i < v.len()
        invariant
            i <= v@.len(),
            out@ == seq!['\''] + quoted_body(v@.take(i as int)),
        decreases v@.len() - i,
    {
        if v[i] == '\'' {
            push_char(&mut out, '\'');
            push_char(&mut out, '\\');
            push_char(&mut out, '\'');
            push_char(&mut out, '\'');
        } else {
            push_char(&mut out, v[i]);
        }
        assert(v@.take(i + 1).drop_last() =~= v@.take(i as int));
        assert(out@ =~= seq!['\''] + quoted_body(v@.take(i + 1)));
        i = i + 1;
    }
    push_char(&mut out, '\'');
    assert(v@.take(i as int) =~= v@);
    assert(out@ =~= quote_spec(s@));
    out
}

/// A zsh wrapper: sources the user's file of that name, then points
/// `ZDOTDIR` back at the integration directory.
pub open spec fn zsh_wrap_spec(user_file: Seq<char>, dir: Seq<char>) -> Seq<char> {
    "[ -f \"$HOME/"@ + user_file + "\" ] && source \"$HOME/"@ + user_file + "\"\n"@ + "export ZDOTDIR="@
        + quote_spec(dir) + "\n"@
}

/// The zsh `.zshrc` wrapper: the user's `.zshrc`, then the hooks.
pub open spec fn zshrc_spec() -> Seq<char> {
    "[ -f \"$HOME/.zshrc\" ] && source \"$HOME/.zshrc\"\n"@ + ZSH_INTEGRATION@
}

/// The bash rc file: the user's files, then the hooks.
pub open spec fn bashrc_spec() -> Seq<char> {
    BASH_SOURCE_USER@ + "\n"@ + BASH_INTEGRATION@
}

/// The path of the bash rc file inside `dir`.
pub open spec fn bashrc_path(dir: Seq<char>) -> Seq<char> {
    crate::state::complete::join_spec(dir, "bashrc"@)
}

fn rc(name: &str, contents: String) -> (r: RcFile)
    ensures
        r.name@ == name@,
        r.contents@ == contents@,
{
    RcFile { name: name.to_owned(), contents }
}

fn zsh_wrap(user_file: &str, dir: &str) -> (r: String)
    ensures
        r@ == zsh_wrap_spec(user_file@, dir@),
{
    let mut s = "[ -f \"$HOME/".to_owned();
    s.append(user_file);
    s.append("\" ] && source \"$HOME/");
    s.append(user_file);
    s.append("\"\n");
    s.append("export ZDOTDIR=");
    let q = shell_quote(dir);
    s.append(q.as_str());
    s.append("\n");
    s
}

/// What starts `shell` with the integration from the directory `dir` (see
/// the module's description).
pub fn plan(shell: Shell, dir: &str) -> (r: Integration)
    ensures
        r.dir@ == dir@,
        match shell {
            Shell::Zsh => {
                &&& r.files@.len() == 4
                &&& r.files@[0].name@ == ".zshenv"@ && r.files@[0].contents@ == zsh_wrap_spec(".zshenv"@, dir@)
                &&& r.files@[1].name@ == ".zprofile"@ && r.files@[1].contents@ == zsh_wrap_spec(".zprofile"@, dir@)
                &&& r.files@[2].name@ == ".zlogin"@ && r.files@[2].contents@ == zsh_wrap_spec(".zlogin"@, dir@)
                &&& r.files@[3].name@ == ".zshrc"@ && r.files@[3].contents@ == zshrc_spec()
                &&& r.env@.len() == 2
                &&& r.env@[0].0@ == "ZDOTDIR"@ && r.env@[0].1@ == dir@
                &&& r.env@[1].0@ == "TERM_PROGRAM"@ && r.env@[1].1@ == "tanaterm"@
                &&& r.args@.len() == 0
                &&& !r.suppress_login
            },
            Shell::Bash => {
                &&& r.files@.len() == 1
                &&& r.files@[0].name@ == "bashrc"@ && r.files@[0].contents@ == bashrc_spec()
                &&& r.env@.len() == 1
                &&& r.env@[0].0@ == "TERM_PROGRAM"@ && r.env@[0].1@ == "tanaterm"@
                &&& r.args@.len() == 2
                &&& r.args@[0]@ == "--rcfile"@ && r.args@[1]@ == bashrc_path(dir@)
                &&& r.suppress_login
            },
        },
{
    match shell {
        Shell::Zsh => {
            let mut zshrc = "[ -f \"$HOME/.zshrc\" ] && source \"$HOME/.zshrc\"\n".to_owned();
            zshrc.append(ZSH_INTEGRATION);
            let files = vec![
                rc(".zshenv", zsh_wrap(".zshenv", dir)),
                rc(".zprofile", zsh_wrap(".zprofile", dir)),
                rc(".zlogin", zsh_wrap(".zlogin", dir)),
                rc(".zshrc", zshrc),
            ];
            let env = vec![("ZDOTDIR".to_owned(), dir.to_owned()), ("TERM_PROGRAM".to_owned(), "tanaterm".to_owned())];
            Integration { dir: dir.to_owned(), files, env, args: Vec::new(), suppress_login: false }
        },
        Shell::Bash => {
            let mut body = BASH_SOURCE_USER.to_owned();
            body.append("\n");
            body.append(BASH_INTEGRATION);
            let dv = chars_of(dir);
            let nv = chars_of("bashrc");
            let path = crate::text::string_of(crate::state::complete::join_path(dv.as_slice(), nv.as_slice()).as_slice());
            let files = vec![rc("bashrc", body)];
            let env = vec![("TERM_PROGRAM".to_owned(), "tanaterm".to_owned())];
            let args = vec!["--rcfile".to_owned(), path];
            Integration { dir: dir.to_owned(), files, env, args, suppress_login: true }
        },
    }
}

} // verus!
