//! The pieces of the UI that decide rather than draw.
//!
//! - `central`: the running-command card and the hint line.
//! - `right_rail`: the sections of the command catalogue.
//! - `rows`: what a click on a row of the rails does.
//! - `widgets`: the small vocabularies of the widgets.
use vstd::prelude::*;

pub mod central;
pub mod right_rail;
pub mod rows;
pub mod widgets;

verus! {

} // verus!
