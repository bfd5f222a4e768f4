//! An incremental syntax-highlighting text buffer: a UTF-8 text, a syntax tree
//! kept in step with it across edits, and the style spans derived from it.

pub mod codetext;
mod engine;
pub mod highlight;
pub mod position;
pub mod style;

pub use codetext::{CodeText, EditError, SetupError};
pub use highlight::captures_within;
pub use highlight::{compute_spans, dedup_captures, Capture, Span};
pub use position::{advance, describe_edit, translate, EditDescriptor, Position, PositionError};
pub use style::{resolve, style_table, Category, Style};
