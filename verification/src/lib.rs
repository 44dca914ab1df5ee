//! The navigation-and-edit core of a modal terminal text editor.
//!
//! The crate maps keystrokes onto positions in a mutable text buffer, keeps a set of cursors
//! consistent while edits shift the buffer, and narrows ranges of text through a small filter
//! grammar. Every function is stated against a mathematical model of the buffer, a sequence of
//! characters, and proved to follow it.

pub mod config;
pub mod document;
pub mod filter;
pub mod grammar;
pub mod laws;
pub mod mark;
pub mod mode;
pub mod num;
pub mod paper;
pub mod search;
pub mod strings;
pub mod text;
pub mod ui;

pub use crate::config::{Config, Level, LogConfig, Setting, Settings};
pub use crate::document::{Document, RelativePlace};
pub use crate::filter::{LineFilter, PatternFilter};
pub use crate::mark::{apply_key, Adjustment, EditClass};
pub use crate::mode::{Controller, Mode, Operation};
pub use crate::num::{Edge, Length, LineNumber, Mark, Place, Pointer, Section};
pub use crate::paper::{Enhancement, Notice, Paper};
pub use crate::text::{BACKSPACE, ENTER, ESC};
pub use crate::ui::{Address, Change, Color, Edit, Region};
