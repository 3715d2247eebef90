//! A layer on top of an HTML5-conformant parser that provides an ergonomic,
//! chainable interface for querying and navigating a parsed HTML document
//! tree: select nodes by tag, attribute or class, restrict recursion, limit
//! result counts, walk to parents and children, and extract text and
//! serialized HTML.

use vstd::prelude::*;
use std::rc::Rc;

pub mod attribute;
pub mod dom;
pub mod find;
pub mod node_ext;
pub mod pattern;
pub mod prelude;
pub mod qb_ext;
pub mod strutil;

use crate::node_ext::NodeHandle;
use crate::qb_ext::QueryBuilderExt;

verus! {

/// Parses HTML & provides methods to query & navigate the document.
pub struct Soup {
    root: NodeHandle,
}

impl Soup {
    /// The handle to the document root that queries start from.
    pub closed spec fn root_spec(self) -> NodeHandle {
        self.root
    }

    /// Create a new `Soup` instance from a string slice, delegating to the
    /// HTML parser; parsing a string is lenient and cannot fail.
    pub fn new(html: &str) -> (s: Soup)
        ensures
            s.root_spec().idx_spec() == 0,
    {
        let doc = crate::dom::parse_dom(html);
        let tree = crate::dom::build_tree(&doc);
        let root = NodeHandle::make(Rc::new(tree), 0);
        Soup { root }
    }

    /// Extracts all text from the HTML document.
    pub fn text(&self) -> (r: String)
        ensures
            r@ == crate::node_ext::text_of(
                self.root_spec().tree_spec(),
                self.root_spec().idx_spec(),
            ),
    {
        self.root.text()
    }

}

impl QueryBuilderExt for Soup {
    /// The document starts queries from its root node.
    open spec fn handle_spec(&self) -> NodeHandle {
        self.root_spec()
    }

    fn get_handle(&self) -> (r: NodeHandle) {
        self.root.duplicate()
    }
}

} // verus!
