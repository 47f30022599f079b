//! Rich-text rendering for status-bar hosts.
//!
//! A widget builds a [`Format`] tree describing styled text; a backend
//! renderer turns that tree into the concrete markup its host expects.
//! The pango/XML backend lives in [`awesome`].

pub mod data;
pub mod xml;
pub mod awesome;

pub use data::Alignment;
pub use data::ClickAction;
pub use data::Format;
pub use data::MouseButton;
pub use awesome::AwesomeFormatter;
