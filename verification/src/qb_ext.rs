//! Starting queries from a node handle, and iterators over a node's
//! relatives: its children in document order, and its chain of ancestors up
//! to the document root.

use vstd::prelude::*;
use std::rc::Rc;
use crate::dom::{clone_tree_rc, Tree};
use crate::find::{AttrQuery, EmptyQueryWrapper, QueryBuilder, TagQuery};
use crate::node_ext::NodeHandle;
use crate::pattern::Pattern;

verus! {

/// Adds the QueryBuilder constructor methods to the implementing type:
/// anything that can hand out a node handle -- the parsed document itself,
/// or any node found within one -- can start a query from it, and walk to
/// its children and parents.
pub trait QueryBuilderExt: Sized {
    /// The node these query constructors start from.
    spec fn handle_spec(&self) -> NodeHandle;

    /// Retrieves the Handle that these methods will work on.
    fn get_handle(&self) -> (r: NodeHandle)
        ensures
            r.tree_spec() == self.handle_spec().tree_spec(),
            r.idx_spec() == self.handle_spec().idx_spec(),
    ;

    /// Starts building a query over this node's subtree, with limit
    /// `limit`.
    fn limit(&self, limit: usize) -> (r: QueryBuilder<(), ()>)
        ensures
            r.tree_spec() == self.handle_spec().tree_spec(),
            r.root_spec() == self.handle_spec().idx_spec(),
            r.queries_spec().next_spec() is None,
            r.limit_spec() == Some(limit),
            r.recursive_spec() == true,
    {
        QueryBuilder::new(self.get_handle()).limit(limit)
    }

    /// Starts building a query over this node's subtree, with recursion
    /// set to `recursive`.
    fn recursive(&self, recursive: bool) -> (r: QueryBuilder<(), ()>)
        ensures
            r.tree_spec() == self.handle_spec().tree_spec(),
            r.root_spec() == self.handle_spec().idx_spec(),
            r.queries_spec().next_spec() is None,
            r.limit_spec() is None,
            r.recursive_spec() == recursive,
    {
        QueryBuilder::new(self.get_handle()).recursive(recursive)
    }

    /// Starts building a query over this node's subtree, with tag `tag`.
    fn tag<P: Pattern>(&self, tag: P) -> (r: QueryBuilder<TagQuery<P>, EmptyQueryWrapper>)
        ensures
            r.tree_spec() == self.handle_spec().tree_spec(),
            r.root_spec() == self.handle_spec().idx_spec(),
            r.queries_spec().inner_spec().pattern_spec() == tag,
            r.queries_spec().next_spec() matches Some(e) && e.next_spec() is None,
            r.limit_spec() is None,
            r.recursive_spec() == true,
    {
        QueryBuilder::new(self.get_handle()).tag(tag)
    }

    /// Starts building a query over this node's subtree, for elements
    /// bearing an attribute named by `name`.
    fn attr_name<P: Pattern>(&self, name: P) -> (r: QueryBuilder<
        AttrQuery<P, bool>,
        EmptyQueryWrapper,
    >)
        ensures
            r.tree_spec() == self.handle_spec().tree_spec(),
            r.root_spec() == self.handle_spec().idx_spec(),
            r.queries_spec().inner_spec().key_spec() == name,
            r.queries_spec().inner_spec().value_spec() == true,
            r.queries_spec().next_spec() matches Some(e) && e.next_spec() is None,
            r.limit_spec() is None,
            r.recursive_spec() == true,
    {
        QueryBuilder::new(self.get_handle()).attr_name(name)
    }

    /// Starts building a query over this node's subtree, for elements with
    /// an attribute of any name whose value satisfies `value`.
    fn attr_value<P: Pattern>(&self, value: P) -> (r: QueryBuilder<
        AttrQuery<bool, P>,
        EmptyQueryWrapper,
    >)
        ensures
            r.tree_spec() == self.handle_spec().tree_spec(),
            r.root_spec() == self.handle_spec().idx_spec(),
            r.queries_spec().inner_spec().key_spec() == true,
            r.queries_spec().inner_spec().value_spec() == value,
            r.queries_spec().next_spec() matches Some(e) && e.next_spec() is None,
            r.limit_spec() is None,
            r.recursive_spec() == true,
    {
        QueryBuilder::new(self.get_handle()).attr_value(value)
    }

    /// Starts building a query over this node's subtree, with attribute
    /// name and value patterns.
    fn attr<P: Pattern, Q: Pattern>(&self, name: P, value: Q) -> (r: QueryBuilder<
        AttrQuery<P, Q>,
        EmptyQueryWrapper,
    >)
        ensures
            r.tree_spec() == self.handle_spec().tree_spec(),
            r.root_spec() == self.handle_spec().idx_spec(),
            r.queries_spec().inner_spec().key_spec() == name,
            r.queries_spec().inner_spec().value_spec() == value,
            r.queries_spec().next_spec() matches Some(e) && e.next_spec() is None,
            r.limit_spec() is None,
            r.recursive_spec() == true,
    {
        QueryBuilder::new(self.get_handle()).attr(name, value)
    }

    /// Starts building a query over this node's subtree, with class
    /// `value` (an attribute query on `class`, which is list-aware).
    fn class<P: Pattern>(&self, value: P) -> (r: QueryBuilder<
        AttrQuery<&'static str, P>,
        EmptyQueryWrapper,
    >)
        ensures
            r.tree_spec() == self.handle_spec().tree_spec(),
            r.root_spec() == self.handle_spec().idx_spec(),
            r.queries_spec().inner_spec().key_spec()@ == "class"@,
            r.queries_spec().inner_spec().value_spec() == value,
            r.queries_spec().next_spec() matches Some(e) && e.next_spec() is None,
            r.limit_spec() is None,
            r.recursive_spec() == true,
    {
        QueryBuilder::new(self.get_handle()).class(value)
    }

    /// Returns an iterator over the node's children, in document order.
    fn children(&self) -> (r: NodeChildIter)
        ensures
            r.tree_spec() == self.handle_spec().tree_spec(),
            r.node_spec() == self.handle_spec().idx_spec(),
            r.pos_spec() == 0,
    {
        NodeChildIter::new(self.get_handle())
    }

    /// Returns an iterator over the node's parents: its parent,
    /// grandparent, and so on up to and including the document root.
    fn parents(&self) -> (r: NodeParentIter)
        ensures
            r.tree_spec() == self.handle_spec().tree_spec(),
            r.cur_spec() == self.handle_spec().idx_spec(),
    {
        NodeParentIter::new(self.get_handle())
    }
}

impl QueryBuilderExt for NodeHandle {
    /// A handle starts queries at the node it designates.
    open spec fn handle_spec(&self) -> NodeHandle {
        *self
    }

    fn get_handle(&self) -> (r: NodeHandle) {
        self.duplicate()
    }
}

/// Iterator over the children of a node, in document order.
pub struct NodeChildIter {
    tree: Rc<Tree>,
    node: usize,
    pos: usize,
}

impl NodeChildIter {
    /// Every iterator points into a well-formed tree.
    #[verifier::type_invariant]
    pub closed spec fn inv(self) -> bool {
        &&& self.tree.wf()
        &&& self.node < self.tree.nodes@.len()
    }

    /// The tree the iterator walks.
    pub closed spec fn tree_spec(self) -> Tree {
        *self.tree
    }

    /// The node whose children are yielded.
    pub closed spec fn node_spec(self) -> int {
        self.node as int
    }

    /// How many children have been yielded so far.
    pub closed spec fn pos_spec(self) -> int {
        self.pos as int
    }

    /// Builds a child iterator starting before the first child of the node
    /// `handle` designates.
    pub fn new(handle: NodeHandle) -> (r: NodeChildIter)
        ensures
            r.tree_spec() == handle.tree_spec(),
            r.node_spec() == handle.idx_spec(),
            r.pos_spec() == 0,
    {
        let (tree, node) = handle.raw();
        NodeChildIter { tree, node, pos: 0 }
    }

    /// The number of children of the node.
    pub fn len(&self) -> (r: usize)
        ensures
            r == self.tree_spec().kids(self.node_spec()).len(),
    {
        proof {
            use_type_invariant(self);
        }
        self.tree.nodes[self.node].children.len()
    }

    /// Yields a handle to the next child, or `None` when every child has
    /// been yielded.
    pub fn next(&mut self) -> (r: Option<NodeHandle>)
        ensures
            final(self).tree_spec() == old(self).tree_spec(),
            final(self).node_spec() == old(self).node_spec(),
            match r {
                Some(h) => {
                    &&& old(self).pos_spec() < old(self).tree_spec().kids(
                        old(self).node_spec(),
                    ).len()
                    &&& h.tree_spec() == old(self).tree_spec()
                    &&& h.idx_spec() == old(self).tree_spec().kids(old(self).node_spec())[old(
                        self,
                    ).pos_spec()] as int
                    &&& final(self).pos_spec() == old(self).pos_spec() + 1
                },
                None => {
                    &&& old(self).pos_spec() >= old(self).tree_spec().kids(
                        old(self).node_spec(),
                    ).len()
                    &&& final(self).pos_spec() == old(self).pos_spec()
                },
            },
    {
        proof {
            use_type_invariant(&*self);
        }
        let cs = &self.tree.nodes[self.node].children;
        if self.pos < cs.len() {
            let c = cs[self.pos];
            proof {
                assert(self.tree.wf_node(self.node as int));
                assert(self.tree.kids(self.node as int)[self.pos as int] == c);
                assert((c as int) < self.tree.nodes@.len());
            }
            let h = NodeHandle::make(clone_tree_rc(&self.tree), c);
            self.pos = self.pos + 1;
            Some(h)
        } else {
            None
        }
    }
}

/// Iterator over the parents of a node: each step resolves one parent link,
/// ending after the document root has been yielded.
pub struct NodeParentIter {
    tree: Rc<Tree>,
    cur: usize,
}

impl NodeParentIter {
    /// Every iterator points into a well-formed tree.
    #[verifier::type_invariant]
    pub closed spec fn inv(self) -> bool {
        &&& self.tree.wf()
        &&& self.cur < self.tree.nodes@.len()
    }

    /// The tree the iterator walks.
    pub closed spec fn tree_spec(self) -> Tree {
        *self.tree
    }

    /// The node whose parent the next step yields.
    pub closed spec fn cur_spec(self) -> int {
        self.cur as int
    }

    /// Builds a parent iterator starting at the node `handle` designates.
    pub fn new(handle: NodeHandle) -> (r: NodeParentIter)
        ensures
            r.tree_spec() == handle.tree_spec(),
            r.cur_spec() == handle.idx_spec(),
    {
        let (tree, cur) = handle.raw();
        NodeParentIter { tree, cur }
    }

    /// Yields a handle to the current node's parent and moves up to it, or
    /// `None` once the document root has been passed.
    pub fn next(&mut self) -> (r: Option<NodeHandle>)
        ensures
            final(self).tree_spec() == old(self).tree_spec(),
            match r {
                Some(h) => {
                    &&& old(self).tree_spec().parent_of(old(self).cur_spec()) == Some(
                        h.idx_spec() as usize,
                    )
                    &&& h.tree_spec() == old(self).tree_spec()
                    &&& final(self).cur_spec() == h.idx_spec()
                },
                None => {
                    &&& old(self).tree_spec().parent_of(old(self).cur_spec()) is None
                    &&& final(self).cur_spec() == old(self).cur_spec()
                },
            },
    {
        proof {
            use_type_invariant(&*self);
        }
        match self.tree.nodes[self.cur].parent {
            Some(p) => {
                proof {
                    assert(self.tree.wf());
                    assert((p as int) < self.tree.nodes@.len());
                }
                let h = NodeHandle::make(clone_tree_rc(&self.tree), p);
                self.cur = p;
                Some(h)
            },
            None => None,
        }
    }
}

} // verus!
