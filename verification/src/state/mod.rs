//! The UI state model: sessions, their command blocks, the shelf of favourite
//! directories, the command catalogue, and the queue of PTY requests.
//!
//! - `model`: the types and their mathematical views.
//! - `ops`: sessions, input submission and the command catalogue.
//! - `output`: applying terminal actions to the blocks of a session.
//! - `edit`: inline renaming, the command form and the shelf.
//! - `persist`: start-up, the persistent subset and its restoration.
//! - `complete`: input history and path completion.
//! - `seed`: a fixture state.
use vstd::prelude::*;

pub mod model;
pub mod ops;
pub mod output;
pub mod edit;
pub mod persist;
pub mod seed;
pub mod complete;

pub use model::{
    AppState, Block, Command, PendingPty, PersistentSession, PersistentState, RenameTarget,
    Session, SessionStatus, ShelfItem, UiState,
};
pub use output::truncate_after_last_newline;

verus! {

/// Colour class of a piece of terminal output.
#[derive(Debug, Clone, Copy, PartialEq, Eq, Structural)]
pub enum OutputColor {
    /// The default foreground.
    Default,
    /// Sage (success).
    Sage,
    /// Rust (errors).
    Rust,
    /// Amber.
    Amber,
    /// Azure (URLs, numbers).
    Azure,
    /// Plum.
    Plum,
    /// Dimmed (annotations).
    Dim,
}

impl Default for OutputColor {
    fn default() -> (r: Self)
        ensures
            r == OutputColor::Default,
    {
        OutputColor::Default
    }
}

/// A run of terminal output in one colour.
#[derive(Debug, Clone, PartialEq, Eq)]
pub struct OutputSpan {
    pub color: OutputColor,
    pub text: String,
}

/// Mathematical form of an `OutputSpan`.
pub struct SpanV {
    pub color: OutputColor,
    pub text: Seq<char>,
}

impl View for OutputSpan {
    type V = SpanV;

    open spec fn view(&self) -> SpanV {
        SpanV { color: self.color, text: self.text@ }
    }
}

pub open spec fn spans_view(v: Seq<OutputSpan>) -> Seq<SpanV> {
    v.map_values(|s: OutputSpan| s@)
}

impl OutputSpan {
    /// A copy of the span.
    pub fn duplicate(&self) -> (r: OutputSpan)
        ensures
            r@ == self@,
    {
        OutputSpan { color: self.color, text: self.text.clone() }
    }
}

/// A copy of a list of spans.
pub fn clone_spans(v: &Vec<OutputSpan>) -> (r: Vec<OutputSpan>)
    ensures
        spans_view(r@) == spans_view(v@),
{
    let mut r: Vec<OutputSpan> = Vec::new();
    let mut i: usize = 0;
    while i < v.len()
        invariant
            i <= v@.len(),
            r@.len() == i,
            forall|j: int| 0 <= j < i ==> (#[trigger] r@[j])@ == v@[j]@,
        decreases v@.len() - i,
    {
        r.push(v[i].duplicate());
        i = i + 1;
    }
    assert(spans_view(r@) =~= spans_view(v@)) by {
        assert forall|j: int| 0 <= j < r@.len() implies spans_view(r@)[j] == spans_view(v@)[j] by {
            assert(r@[j]@ == v@[j]@);
        }
    }
    r
}

} // verus!
