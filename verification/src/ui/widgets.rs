//! The small vocabularies of the widgets.
use vstd::prelude::*;

verus! {

/// Which rail a sidebar toggle belongs to.
#[derive(Debug, Clone, Copy, PartialEq, Eq, Structural)]
pub enum SidebarSide {
    Left,
    Right,
}

/// The icons drawn from images.
#[derive(Debug, Clone, Copy, PartialEq, Eq, Structural)]
pub enum Icon {
    /// The pin.
    Pin,
    /// The pencil.
    Edit,
}

impl Icon {
    /// The name its texture is registered under.
    pub fn name(self) -> (r: &'static str)
        ensures
            r@ == (match self {
                Icon::Pin => "pin"@,
                Icon::Edit => "edit"@,
            }),
    {
        match self {
            Icon::Pin => "pin",
            Icon::Edit => "edit",
        }
    }

    /// The glyph drawn while the texture is missing.
    pub fn fallback_glyph(self) -> (r: &'static str)
        ensures
            r@ == (match self {
                Icon::Pin => "⌖"@,
                Icon::Edit => "✎"@,
            }),
    {
        match self {
            Icon::Pin => "⌖",
            Icon::Edit => "✎",
        }
    }
}

/// The look of a row.
#[derive(Debug, Clone, Copy, PartialEq, Eq, Structural)]
pub enum RowState {
    Default,
    Active,
}

} // verus!
