//! Converts an HTML fragment or document into a semantic document model: a
//! tree of block nodes (headings, paragraphs, lists, tables, quotes, code
//! blocks) whose paragraphs hold styled text and images.
//!
//! - `html`: tokenizing with html5ever and the entry points `parse` and
//!   `parse_markup`.
//! - `dom`: the generic DOM tree that the builders walk.
//! - `block`: the block tree builder.
//! - `inline`: text, marks and images of an element subtree.
//! - `table`, `code`: tables and `pre` code blocks.
//! - `attrs`: attributes, inline styles, lengths and class names.
//! - `document`: compaction and assembly of the final document.
//! - `node`: the document model and its views.
//! - `text`, `number`: character-level helpers and float literals.
pub mod attrs;
pub mod block;
pub mod code;
pub mod document;
pub mod dom;
pub mod html;
pub mod inline;
pub mod node;
pub mod number;
pub mod same;
pub mod table;
pub mod text;

pub use html::{parse, parse_markup};
