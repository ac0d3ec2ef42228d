//! tanaterm: the verified core of a small block-oriented terminal.
//!
//! The library turns the raw byte stream of a shell into command blocks
//! (`term`), keeps the UI state model (`state`), and holds the smaller pieces
//! around them: the shell integration's start-up files
//! (`shell_integration`), the choice of the shell (`config`), what starting a
//! shell takes (`pty`), the wall clock (`clock`), the notice for long
//! commands (`notify`), the window's keyboard shortcuts (`shortcuts`), the deciding parts of the UI (`ui`), and the text and
//! number helpers they share (`text`, `num`).
use vstd::prelude::*;

pub mod clock;
pub mod config;
pub mod notify;
pub mod num;
pub mod pty;
pub mod shell_integration;
pub mod shortcuts;
pub mod state;
pub mod term;
pub mod text;
pub mod ui;

verus! {

} // verus!
