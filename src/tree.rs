//! The document tree that the flattener walks, and the document source text.
use vstd::prelude::*;

use crate::error::Error;

verus! {

/// One attribute of an element.
#[derive(Clone, Debug, PartialEq, Eq)]
pub struct Attribute {
    pub name: String,
    pub value: String,
}

/// What a classifier sees of an element: its tag name and its attributes.
#[derive(Clone, Debug, PartialEq, Eq)]
pub struct ElementData {
    pub name: String,
    pub attributes: Vec<Attribute>,
}

/// A node of a parsed document.
#[derive(Debug)]
pub enum Node {
    /// A text node; it has no children.
    Text(String),
    /// An element with its children in document order.
    Element { data: ElementData, children: Vec<Node> },
    /// Any other node (comment, doctype, processing instruction): it adds nothing.
    Other,
}

/// A parsed document: the children of its root node, in document order.
#[derive(Debug)]
pub struct ParsedHtml {
    pub nodes: Vec<Node>,
}

/// The source text of an HTML document.
#[derive(Debug)]
pub struct Document {
    pub html: String,
}

impl Document {
    /// Wraps HTML source text; this never fails.
    pub fn from_string(html: String) -> (r: Result<Document, Error>)
        ensures
            r matches Ok(d) && d.html@ == html@,
    {
        Ok(Document { html })
    }
}

} // verus!
