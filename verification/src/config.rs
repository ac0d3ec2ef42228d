//! The shell that runs inside the terminal, and how its executable is chosen.
use vstd::prelude::*;
use crate::text::opt_str;

verus! {

/// Which shell runs inside the terminal.
#[derive(Debug, Clone, Copy, PartialEq, Eq, Structural)]
pub enum Shell {
    Bash,
    /// zsh, the macOS default.
    Zsh,
}

impl Default for Shell {
    fn default() -> (r: Self)
        ensures
            r == Shell::Zsh,
    {
        Shell::Zsh
    }
}

/// The standard location of the shell's executable.
pub open spec fn program_path(shell: Shell) -> Seq<char> {
    match shell {
        Shell::Bash => "/bin/bash"@,
        Shell::Zsh => "/bin/zsh"@,
    }
}

impl Shell {
    /// The other shell.
    pub open spec fn toggled_spec(self) -> Shell {
        match self {
            Shell::Zsh => Shell::Bash,
            Shell::Bash => Shell::Zsh,
        }
    }

    /// Absolute path of the shell executable.
    pub fn program(self) -> (r: &'static str)
        ensures
            r@ == program_path(self),
    {
        match self {
            Shell::Bash => "/bin/bash",
            Shell::Zsh => "/bin/zsh",
        }
    }

    /// The other shell (the toggle of the input line).
    pub fn toggled(self) -> (r: Shell)
        ensures
            r == self.toggled_spec(),
    {
        match self {
            Shell::Zsh => Shell::Bash,
            Shell::Bash => Shell::Zsh,
        }
    }
}

/// The override configured for `shell`, if any.
pub open spec fn override_for(shell: Shell, zsh_path: Option<Seq<char>>, bash_path: Option<Seq<char>>) -> Option<Seq<char>> {
    match shell {
        Shell::Zsh => zsh_path,
        Shell::Bash => bash_path,
    }
}

/// The executable to run: the override when one is configured and names an
/// existing file, else the standard location.
pub open spec fn chosen_program(shell: Shell, over: Option<Seq<char>>, over_exists: bool) -> Seq<char> {
    match over {
        Some(p) if over_exists => p,
        _ => program_path(shell),
    }
}

/// Picks the configured override for `shell` among the two paths.
pub fn shell_override(shell: Shell, zsh_path: &Option<String>, bash_path: &Option<String>) -> (r: Option<String>)
    ensures
        opt_str(r) == override_for(shell, opt_str(*zsh_path), opt_str(*bash_path)),
{
    let chosen = match shell {
        Shell::Zsh => zsh_path,
        Shell::Bash => bash_path,
    };
    match chosen {
        Some(p) => Some(p.clone()),
        None => None,
    }
}

/// The executable for `shell`, given the override (if any) and whether it
/// names an existing file.
pub fn shell_program_choice(shell: Shell, over: Option<String>, over_exists: bool) -> (r: String)
    ensures
        r@ == chosen_program(shell, opt_str(over), over_exists),
{
    match over {
        Some(p) if over_exists => p,
        _ => shell.program().to_owned(),
    }
}

} // verus!
