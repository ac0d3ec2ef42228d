//! Splitting the raw byte stream of a shell into command blocks.
//!
//! - `osc`: the scanner that takes OSC 133 / OSC 7 sequences out of the stream.
//! - `sgr`: the converter from output bytes to coloured spans.
//! - `session`: both combined with the block life cycle of one session.
use vstd::prelude::*;

pub mod osc;
pub mod sgr;
pub mod session;

pub use osc::{BlockEvent, OscScanner};
pub use sgr::{SgrConverter, SgrEvent};
pub use session::{SessionTerm, TermAction};

verus! {

} // verus!
