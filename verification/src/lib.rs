//! A markdown rendering and text-selection core.
//!
//! The crate models a markdown document as a byte string, parses it into an
//! ordered event sequence (supplied by the host), builds a render tree with a
//! line-by-line index mapping source offsets to rendered offsets, and answers
//! the position, word, line and link queries that an interactive text layer
//! needs.

pub mod builder;
pub mod document;
pub mod events;
pub mod flags;
pub mod layout;
pub mod rendered;
pub mod selection;
pub mod style;
pub mod text;

