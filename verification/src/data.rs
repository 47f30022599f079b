//! The rich-text document model.
//!
//! A [`Format`] value is a finite tree of styled text built by widgets and
//! consumed exactly once by a backend renderer. All interpretation lives in
//! the renderers; this module only defines the closed variant set.

use vstd::prelude::*;

verus! {

/// Horizontal placement hint for a span of output.
#[derive(Debug, Clone, Copy, PartialEq, Eq)]
pub enum Alignment {
    Left,
    Center,
    Right,
}

/// The pointer button a click action is bound to.
#[derive(Debug, Clone, Copy, PartialEq, Eq)]
pub enum MouseButton {
    Left,
    Middle,
    Right,
    ScrollUp,
    ScrollDown,
}

/// An action the host dispatches when a click region is activated.
/// The command is an opaque string; the renderer never executes it.
#[derive(Debug, PartialEq, Eq)]
pub enum ClickAction {
    ShellCommand(MouseButton, String),
}

/// A styled rich-text tree.
///
/// Every variant wraps zero or more child documents; the tree is finite,
/// acyclic and immutable once built. A backend that cannot express a given
/// style renders the child unchanged, so no content is ever lost.
#[derive(Debug, PartialEq, Eq)]
pub enum Format {
    /// Literal text that a widget intends as backend-native directives.
    /// Backends with a control syntax of their own leave it unescaped;
    /// transport-level escaping (such as XML entities) still applies.
    UnescapedStr(String),
    /// Literal text, defensively escaped against the backend's own control
    /// syntax as well as its transport format.
    Str(String),
    /// Concatenation of the children in order, with no separator inserted.
    Concat(Vec<Box<Format>>),
    /// Layout hint; backends without an alignment primitive render the
    /// child unchanged.
    Align(Alignment, Box<Format>),
    /// Foreground color override for the child; the color string is opaque
    /// to the renderer.
    FgColor(String, Box<Format>),
    /// Background color override for the child; the color string is opaque
    /// to the renderer.
    BgColor(String, Box<Format>),
    /// Hint that no default separator should be placed beside this span;
    /// backends without that concept render the child unchanged.
    NoSeparator(Box<Format>),
    /// A run of space characters, rendered as its own text span before the
    /// child. A count of zero produces no padding span at all.
    Padding(u32, Box<Format>),
    /// Click region; backends without click support render only the child.
    Clickable(ClickAction, Box<Format>),
}

} // verus!
