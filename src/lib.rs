//! Flattens an HTML node tree into a bracketed stream of tokens and rewrites
//! such streams with rules that may look ahead.
pub mod cursor;
pub mod element;
pub mod error;
pub mod laws;
pub mod rules;
pub mod strip;
pub mod tree;
pub mod util;

pub use element::{Element, FlatHtml, TagKind};
pub use tree::{Attribute, Document, ElementData, Node, ParsedHtml};
