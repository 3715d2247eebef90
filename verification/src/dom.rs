//! The document tree that queries run over.
//!
//! A parsed document is stored as an arena: a vector of nodes laid out in
//! pre-order, so that a node's subtree is the contiguous index interval from
//! the node itself up to (but not including) its `end` field, and a pre-order
//! walk of the tree visits the nodes exactly in index order.  The
//! well-formedness predicate [`Tree::wf`] pins this layout down.

use vstd::prelude::*;
use std::rc::Rc;
use html5ever::tendril::TendrilSink;

verus! {

/// Relies on `std::rc::Rc::clone`: the result is a new reference-counted
/// handle to the very same shared tree.
#[verifier::external_body]
pub(crate) fn clone_tree_rc(rc: &Rc<Tree>) -> (r: Rc<Tree>)
    ensures
        r == *rc,
{
    Rc::clone(rc)
}

/// A single attribute of an element: a (name, value) pair of strings, as the
/// parser produced it.
pub struct Attr {
    /// The attribute's name (the parser lowercases HTML attribute names).
    pub name: String,
    /// The attribute's raw value.
    pub value: String,
}

/// The payload of one node of the document tree.
///
/// Only `Element` carries a name and an attribute bag; only `Text` and
/// `Comment` carry contents that text extraction and rendering read.
pub enum NodeData {
    /// The document root.
    Document,
    /// A `<!DOCTYPE ...>` declaration.
    Doctype,
    /// A text node.
    Text {
        /// The literal text.
        contents: String,
    },
    /// A `<!-- ... -->` comment.
    Comment {
        /// The comment's contents, without the delimiters.
        contents: String,
    },
    /// A processing instruction.
    ProcessingInstruction,
    /// An element.
    Element {
        /// The element's local name (the parser lowercases HTML names).
        name: String,
        /// The element's attributes, in the order the parser produced them.
        attrs: Vec<Attr>,
    },
}

/// One arena slot: a node's payload together with its links into the arena.
pub struct TreeNode {
    /// What the node is and holds.
    pub data: NodeData,
    /// Index of the parent node; `None` exactly for the root.
    pub parent: Option<usize>,
    /// Indices of the child nodes, in document order.
    pub children: Vec<usize>,
    /// One past the last index of this node's subtree.
    pub end: usize,
}

/// A parsed document tree in pre-order arena layout.
pub struct Tree {
    /// The nodes; index 0 is the document root.
    pub nodes: Vec<TreeNode>,
}

/// The local pre-order layout conditions at node `i` of the arena `a`: the
/// subtree of `i` is the interval `[i, end)`; the children's subtrees tile
/// the interval `(i, end)` from left to right; each child points back to
/// `i`.
pub open spec fn nodes_wf_node(a: Seq<TreeNode>, i: int) -> bool {
    let nd = a[i];
    let cs = nd.children@;
    &&& i < nd.end <= a.len()
    &&& (cs.len() == 0 ==> nd.end == i + 1)
    &&& (cs.len() > 0 ==> {
        &&& cs[0] == i + 1
        &&& a[cs.last() as int].end == nd.end
        &&& (forall|k: int|
            0 <= k < cs.len() - 1 ==> a[#[trigger] cs[k] as int].end == cs[k + 1])
        &&& (forall|k: int| 0 <= k < cs.len() ==> i < #[trigger] cs[k] && cs[k] < nd.end)
        &&& (forall|k: int|
            0 <= k < cs.len() ==> a[#[trigger] cs[k] as int].parent == Some(i as usize))
    })
}

/// The parent linkage condition at node `i` of the arena `a`: the root has
/// no parent, and every other node points to an earlier node whose child
/// list contains it.
pub open spec fn nodes_parent_ok(a: Seq<TreeNode>, i: int) -> bool {
    if i == 0 {
        a[0].parent is None
    } else {
        &&& a[i].parent matches Some(p)
        &&& p < i
        &&& a[p as int].children@.contains(i as usize)
    }
}

impl NodeData {
    /// True of the `Document` variant.
    pub open spec fn is_document(&self) -> bool {
        self matches NodeData::Document
    }

    /// True of the `Doctype` variant.
    pub open spec fn is_doctype(&self) -> bool {
        self matches NodeData::Doctype
    }

    /// True of the `Text` variant.
    pub open spec fn is_text(&self) -> bool {
        self matches NodeData::Text { .. }
    }

    /// True of the `Comment` variant.
    pub open spec fn is_comment(&self) -> bool {
        self matches NodeData::Comment { .. }
    }

    /// True of the `ProcessingInstruction` variant.
    pub open spec fn is_processing_instruction(&self) -> bool {
        self matches NodeData::ProcessingInstruction
    }

    /// True of the `Element` variant.
    pub open spec fn is_element(&self) -> bool {
        self matches NodeData::Element { .. }
    }
}

impl Tree {
    /// Number of nodes in the arena.
    pub open spec fn len(&self) -> int {
        self.nodes@.len() as int
    }

    /// True when `i` is the index of a node.
    pub open spec fn in_range(&self, i: int) -> bool {
        0 <= i < self.len()
    }

    /// The arena slot at index `i`.
    pub open spec fn node(&self, i: int) -> TreeNode {
        self.nodes@[i]
    }

    /// One past the last index of the subtree rooted at `i`.
    pub open spec fn end_of(&self, i: int) -> int {
        self.node(i).end as int
    }

    /// The parent link of node `i`.
    pub open spec fn parent_of(&self, i: int) -> Option<usize> {
        self.node(i).parent
    }

    /// The child indices of node `i`, in document order.
    pub open spec fn kids(&self, i: int) -> Seq<usize> {
        self.node(i).children@
    }

    /// True when `i` lies in the subtree rooted at `r` (including `r`).
    pub open spec fn in_subtree(&self, r: int, i: int) -> bool {
        r <= i < self.end_of(r)
    }

    /// The local pre-order layout conditions at node `i` (see
    /// [`nodes_wf_node`]).
    pub open spec fn wf_node(&self, i: int) -> bool {
        nodes_wf_node(self.nodes@, i)
    }

    /// Well-formedness of the whole arena: node 0 is the root, its subtree is
    /// the whole arena, every node satisfies the local layout conditions, and
    /// every non-root node is listed among its parent's children.
    pub open spec fn wf(&self) -> bool {
        &&& 1 <= self.len()
        &&& self.parent_of(0) is None
        &&& self.end_of(0) == self.len()
        &&& (forall|i: int| 0 <= i < self.len() ==> self.wf_node(i))
        &&& (forall|i: int|
            1 <= i < self.len() ==> {
                &&& (#[trigger] self.parent_of(i)) matches Some(p)
                &&& p < i
                &&& self.kids(p as int).contains(i as usize)
            })
    }
}

/// The pre-order depth-first visit sequence of the subtree rooted at `i`:
/// the node itself, then each child's subtree in document order.
pub open spec fn preorder(t: Tree, i: int) -> Seq<int>
    decreases t.end_of(i) - i, t.kids(i).len() + 1,
    when t.wf() && t.in_range(i)
{
    seq![i] + preorder_kids(t, i, 0)
}

/// The concatenated pre-order visit sequences of the subtrees of the
/// children of `i`, from child position `k` on.
pub open spec fn preorder_kids(t: Tree, i: int, k: int) -> Seq<int>
    decreases t.end_of(i) - i, t.kids(i).len() - k,
    when t.wf() && t.in_range(i) && 0 <= k
    via preorder_kids_decreases
{
    if k >= t.kids(i).len() {
        Seq::<int>::empty()
    } else {
        preorder(t, t.kids(i)[k] as int) + preorder_kids(t, i, k + 1)
    }
}

#[via_fn]
proof fn preorder_kids_decreases(t: Tree, i: int, k: int) {
    if k < t.kids(i).len() {
        let c = t.kids(i)[k] as int;
        assert(t.wf_node(i));
        assert(t.kids(i)[k] == t.node(i).children@[k]);
        assert(i < c && c < t.end_of(i));
        assert(t.wf_node(c));
        if k + 1 < t.kids(i).len() {
            assert(t.node(i).children@[k + 1] < t.node(i).end);
        } else {
            assert(t.end_of(c) == t.end_of(i));
        }
    }
}

/// The interval of indices from `lo` (inclusive) to `hi` (exclusive), in
/// increasing order.
pub open spec fn index_interval(lo: int, hi: int) -> Seq<int> {
    Seq::new(if hi >= lo {
        (hi - lo) as nat
    } else {
        0
    }, |k: int| lo + k)
}

/// In a well-formed arena, a pre-order depth-first walk of the subtree of
/// `i` visits exactly the subtree's index interval, in increasing index
/// order: document order and index order coincide.
pub proof fn lemma_preorder_is_interval(t: Tree, i: int)
    requires
        t.wf(),
        t.in_range(i),
    ensures
        preorder(t, i) == index_interval(i, t.end_of(i)),
    decreases t.end_of(i) - i, t.kids(i).len() + 1,
{
    assert(t.wf_node(i));
    lemma_preorder_kids_is_interval(t, i, 0);
    if t.kids(i).len() == 0 {
        assert(preorder(t, i) =~= index_interval(i, t.end_of(i)));
    } else {
        assert(preorder_kids(t, i, 0) == index_interval(t.kids(i)[0] as int, t.end_of(i)));
        assert(t.kids(i)[0] == i + 1);
        assert(preorder(t, i) =~= index_interval(i, t.end_of(i)));
    }
}

/// The walk of the children of `i` from position `k` on visits exactly the
/// interval from the `k`-th child (or the subtree's end, when no child is
/// left) to the subtree's end.
proof fn lemma_preorder_kids_is_interval(t: Tree, i: int, k: int)
    requires
        t.wf(),
        t.in_range(i),
        0 <= k <= t.kids(i).len(),
    ensures
        preorder_kids(t, i, k) == index_interval(
            if k < t.kids(i).len() {
                t.kids(i)[k] as int
            } else {
                t.end_of(i)
            },
            t.end_of(i),
        ),
    decreases t.end_of(i) - i, t.kids(i).len() - k,
{
    assert(t.wf_node(i));
    if k == t.kids(i).len() {
        assert(preorder_kids(t, i, k) =~= index_interval(t.end_of(i), t.end_of(i)));
    } else {
        let c = t.kids(i)[k] as int;
        assert(i < c && c < t.end_of(i));
        assert(t.wf_node(c));
        if k + 1 < t.kids(i).len() {
            assert(t.node(i).children@[k + 1] < t.node(i).end);
        } else {
            assert(t.end_of(c) == t.end_of(i));
        }
        lemma_preorder_is_interval(t, c);
        lemma_preorder_kids_is_interval(t, i, k + 1);
        let nxt = if k + 1 < t.kids(i).len() {
            t.kids(i)[k + 1] as int
        } else {
            t.end_of(i)
        };
        assert(t.end_of(c) == nxt);
        assert(preorder_kids(t, i, k) =~= index_interval(c, t.end_of(i)));
    }
}

#[verifier::external_type_specification]
#[verifier::external_body]
/// Declares `markup5ever_rcdom::Node`, the parser's reference-counted DOM
/// node; values of it are opaque to verification and only carried between
/// the trusted readers below.
pub struct ExDomNode(markup5ever_rcdom::Node);

/// Relies on `html5ever::parse_document` driving the `markup5ever_rcdom`
/// tree sink: parses `html` leniently as a complete HTML document (string
/// constructors cannot fail) and returns the document root of the resulting
/// DOM.
#[verifier::external_body]
pub(crate) fn parse_dom(html: &str) -> Rc<markup5ever_rcdom::Node> {
    let sink = markup5ever_rcdom::RcDom::default();
    let dom = html5ever::parse_document(sink, html5ever::ParseOpts::default())
        .from_utf8()
        .one(html.as_bytes());
    dom.document
}

#[verifier::external_type_specification]
#[verifier::external_body]
/// Declares the parser's attribute type, read only by [`attrs_of`].
pub struct ExHtmlAttribute(html5ever::Attribute);

/// Relies on `html5ever::Attribute`: copies each attribute's local name and
/// value out as plain strings, keeping their order.
#[verifier::external_body]
fn attrs_of(attrs: &[html5ever::Attribute]) -> Vec<Attr> {
    attrs
        .iter()
        .map(|a| Attr { name: a.name.local.to_string(), value: a.value.to_string() })
        .collect()
}

/// Relies on `markup5ever_rcdom::Node`: reads the node's payload and
/// converts it to this crate's [`NodeData`], one variant arm each, moving
/// the strings over.
#[verifier::external_body]
fn node_data_of(h: &Rc<markup5ever_rcdom::Node>) -> NodeData {
    match &h.data {
        markup5ever_rcdom::NodeData::Document => NodeData::Document,
        markup5ever_rcdom::NodeData::Doctype { .. } => NodeData::Doctype,
        markup5ever_rcdom::NodeData::Text { contents } => NodeData::Text { contents: contents.borrow().to_string() },
        markup5ever_rcdom::NodeData::Comment { contents } => NodeData::Comment { contents: contents.to_string() },
        markup5ever_rcdom::NodeData::ProcessingInstruction { .. } => NodeData::ProcessingInstruction,
        markup5ever_rcdom::NodeData::Element { name, attrs, .. } => NodeData::Element { name: name.local.to_string(), attrs: attrs_of(&attrs.borrow()) },
    }
}

/// Relies on `markup5ever_rcdom::Node`: clones out the node's child list,
/// in document order.
#[verifier::external_body]
fn children_of(h: &Rc<markup5ever_rcdom::Node>) -> Vec<Rc<markup5ever_rcdom::Node>> {
    h.children.borrow().clone()
}

/// One frame of the arena builder's explicit walk stack: an open arena
/// index, the DOM children of the corresponding DOM node, and how many of
/// them have been entered so far.
struct Frame {
    idx: usize,
    kids: Vec<Rc<markup5ever_rcdom::Node>>,
    next: usize,
}

/// The chaining conditions that hold of an open (still being built) node
/// `i`: the children recorded so far start at `i + 1`, tile contiguously,
/// lie in the arena, and point back to `i`.
spec fn frame_partial(a: Seq<TreeNode>, i: int) -> bool {
    let cs = a[i].children@;
    &&& (cs.len() > 0 ==> cs[0] == i + 1)
    &&& (forall|m: int| 0 <= m < cs.len() - 1 ==> a[#[trigger] cs[m] as int].end == cs[m + 1])
    &&& (forall|m: int| 0 <= m < cs.len() ==> i < #[trigger] cs[m] && (cs[m] as int) < a.len())
    &&& (forall|m: int|
        0 <= m < cs.len() ==> a[#[trigger] cs[m] as int].parent == Some(i as usize))
}

/// The frontier condition of the top open node: everything built so far
/// beyond it belongs to its recorded children, so the next append position
/// is exactly where its next child (or its own end) goes.
spec fn frame_frontier(a: Seq<TreeNode>, i: int) -> bool {
    let cs = a[i].children@;
    if cs.len() == 0 {
        a.len() == i + 1
    } else {
        a[cs.last() as int].end == a.len()
    }
}

/// The builder's stack invariant: frames name open nodes (marked by a zero
/// `end`), in strictly increasing order, each the last recorded child of
/// the one below; the bottom frame is the root and the top one sits at the
/// frontier.
spec fn stack_ok(a: Seq<TreeNode>, s: Seq<Frame>) -> bool {
    &&& (forall|j: int| 0 <= j < s.len() ==> ((#[trigger] s[j].idx) as int) < a.len())
    &&& (forall|j: int| 0 <= j < s.len() ==> a[(#[trigger] s[j].idx) as int].end == 0)
    &&& (forall|j1: int, j2: int| 0 <= j1 < j2 < s.len() ==> s[j1].idx < s[j2].idx)
    &&& (s.len() > 0 ==> s[0].idx == 0)
    &&& (forall|j: int|
        0 <= j < s.len() - 1 ==> {
            let cs = a[(#[trigger] s[j].idx) as int].children@;
            cs.len() > 0 && cs.last() == s[j + 1].idx
        })
    &&& (forall|j: int| 0 <= j < s.len() ==> frame_partial(a, (#[trigger] s[j].idx) as int))
    &&& (s.len() > 0 ==> frame_frontier(a, s[s.len() - 1].idx as int))
}

/// The builder's arena invariant: parent links are in place everywhere,
/// every closed node (nonzero `end`) satisfies the pre-order layout
/// conditions, and every open node (zero `end`) is named by a stack frame.
spec fn arena_ok(a: Seq<TreeNode>, s: Seq<Frame>) -> bool {
    &&& 1 <= a.len()
    &&& (forall|i: int| 0 <= i < a.len() ==> #[trigger] nodes_parent_ok(a, i))
    &&& (forall|i: int| 0 <= i < a.len() && a[i].end != 0 ==> #[trigger] nodes_wf_node(a, i))
    &&& (forall|i: int|
        0 <= i < a.len() && (#[trigger] a[i]).end == 0 ==> exists|j: int|
            0 <= j < s.len() && (s[j].idx as int) == i)
}

/// A closed node's layout conditions survive any arena change that leaves
/// the node itself and every closed node in place: the conditions only read
/// the node and its children, and a closed node's children are closed.
proof fn lemma_wf_node_frame(a1: Seq<TreeNode>, a2: Seq<TreeNode>, i: int)
    requires
        0 <= i < a1.len(),
        a1.len() <= a2.len(),
        nodes_wf_node(a1, i),
        a1[i].end != 0,
        a2[i] == a1[i],
        forall|c: int| 0 <= c < a1.len() && a1[c].end != 0 ==> a2[c] == a1[c],
    ensures
        nodes_wf_node(a2, i),
{
    let cs = a1[i].children@;
    assert forall|m: int| 0 <= m < cs.len() implies a2[cs[m] as int] == a1[cs[m] as int] by {
        if m < cs.len() - 1 {
            assert(a1[cs[m] as int].end == cs[m + 1]);
            assert(cs[m + 1] > 0);
        } else {
            assert(a1[cs[m] as int].end == a1[i].end);
        }
    }
}

/// Parent linkage survives any arena change that keeps each node's parent
/// field and only extends child lists.
proof fn lemma_parent_ok_frame(a1: Seq<TreeNode>, a2: Seq<TreeNode>, i: int)
    requires
        0 <= i < a1.len(),
        a1.len() <= a2.len(),
        nodes_parent_ok(a1, i),
        forall|c: int| 0 <= c < a1.len() ==> a2[c].parent == a1[c].parent,
        forall|c: int|
            0 <= c < a1.len() ==> (#[trigger] a1[c].children@).is_prefix_of(a2[c].children@),
    ensures
        nodes_parent_ok(a2, i),
{
    if i != 0 {
        let p = a1[i].parent->0;
        let k = choose|k: int|
            0 <= k < a1[p as int].children@.len() && a1[p as int].children@[k] == i as usize;
        assert(a1[p as int].children@.is_prefix_of(a2[p as int].children@));
        assert(a2[p as int].children@[k] == i as usize);
    }
}


/// Entering a child preserves the builder's invariants: the fresh node is
/// appended at the frontier, recorded as its parent's next child, and opened
/// as the new top frame.
#[verifier::rlimit(100)]
#[verifier::spinoff_prover]
proof fn lemma_build_advance(a0: Seq<TreeNode>, s0: Seq<Frame>, a1: Seq<TreeNode>, s1: Seq<Frame>)
    requires
        arena_ok(a0, s0),
        stack_ok(a0, s0),
        s0.len() > 0,
        a1.len() == a0.len() + 1,
        s1.len() == s0.len() + 1,
        ({
            let p = s0[s0.len() - 1].idx as int;
            let c = a0.len() as int;
            &&& (forall|i: int| 0 <= i < a0.len() && i != p ==> a1[i] == a0[i])
            &&& a1[p].children@ == a0[p].children@.push(c as usize)
            &&& a1[p].end == a0[p].end
            &&& a1[p].parent == a0[p].parent
            &&& a1[c].parent == Some(p as usize)
            &&& a1[c].children@.len() == 0
            &&& a1[c].end == 0
            &&& (forall|j: int| 0 <= j < s0.len() ==> s1[j].idx == s0[j].idx)
            &&& s1[s0.len() as int].idx as int == c
        }),
    ensures
        arena_ok(a1, s1),
        stack_ok(a1, s1),
{
    let p = s0[s0.len() - 1].idx as int;
    let c = a0.len() as int;
    assert(a0[p].end == 0);
    assert(forall|x: int| 0 <= x < a0.len() ==> a1[x].parent == a0[x].parent);
    assert(forall|x: int|
        0 <= x < a0.len() ==> (#[trigger] a0[x].children@).is_prefix_of(a1[x].children@));
    // parent linkage everywhere
    assert forall|i: int| 0 <= i < a1.len() implies nodes_parent_ok(a1, i) by {
        if i < a0.len() {
            assert(nodes_parent_ok(a0, i));
            lemma_parent_ok_frame(a0, a1, i);
        } else {
            assert(a1[p].children@.last() == c as usize);
            assert(a1[p].children@.contains(c as usize));
        }
    }
    // closed nodes stay well-formed
    assert forall|i: int| 0 <= i < a1.len() && a1[i].end != 0 implies nodes_wf_node(a1, i) by {
        assert(i < a0.len() && i != p);
        assert(a1[i] == a0[i]);
        assert(nodes_wf_node(a0, i));
        lemma_wf_node_frame(a0, a1, i);
    }
    // every open node is on the stack
    assert forall|i: int|
        0 <= i < a1.len() && (#[trigger] a1[i]).end == 0 implies exists|j: int|
            0 <= j < s1.len() && (s1[j].idx as int) == i by {
        if i < a0.len() {
            let j = choose|j: int| 0 <= j < s0.len() && (s0[j].idx as int) == i;
            assert(0 <= j < s1.len() && (s1[j].idx as int) == i);
        } else {
            assert((s1[s0.len() as int].idx as int) == i);
        }
    }
    // the parent frame's chain absorbs the new child
    assert(frame_frontier(a0, p));
    assert(frame_partial(a0, p));
    let cs1 = a1[p].children@;
    if a0[p].children@.len() == 0 {
        assert(c == p + 1);
        assert(cs1[0] == (p + 1) as usize);
    } else {
        assert(cs1[cs1.len() - 2] == a0[p].children@.last());
        assert(a0[a0[p].children@.last() as int].end == c);
        assert(a1[a0[p].children@.last() as int] == a0[a0[p].children@.last() as int]) by {
            assert(a0[p].children@.last() as int != p);
        }
    }
    assert forall|m: int| 0 <= m < cs1.len() - 1 implies a1[#[trigger] cs1[m] as int].end
        == cs1[m + 1] by {
        let cs0 = a0[p].children@;
        if m < cs0.len() - 1 {
            assert(a0[cs0[m] as int].end == cs0[m + 1]);
            assert(cs0[m] as int != p);
        }
    }
    assert(frame_partial(a1, p));
    assert(frame_partial(a1, c));
    assert(frame_frontier(a1, c));
    // frames below keep their chains
    assert forall|j: int| 0 <= j < s1.len() implies frame_partial(
        a1,
        (#[trigger] s1[j].idx) as int,
    ) by {
        if j < s0.len() && (s1[j].idx as int) != p {
            let w = s0[j].idx as int;
            assert(frame_partial(a0, w));
            assert(a1[w] == a0[w]);
            let cs = a0[w].children@;
            assert forall|m: int| 0 <= m < cs.len() - 1 implies a1[#[trigger] cs[m] as int].end
                == cs[m + 1] by {
                assert(a0[cs[m] as int].end == cs[m + 1]);
                if cs[m] as int == p {
                    assert(a0[p].end == 0);
                }
            }
            assert forall|m: int| 0 <= m < cs.len() implies a1[#[trigger] cs[m] as int].parent
                == Some(w as usize) by {
                assert(a0[cs[m] as int].parent == Some(w as usize));
            }
        }
    }
    // the spine still links each frame to the next
    assert forall|j: int| 0 <= j < s1.len() - 1 implies {
        let cs = a1[(#[trigger] s1[j].idx) as int].children@;
        cs.len() > 0 && cs.last() == s1[j + 1].idx
    } by {
        if j < s0.len() - 1 {
            let w = s0[j].idx as int;
            assert(w != p);
            assert(a1[w] == a0[w]);
        } else {
            assert(j == s0.len() - 1);
            assert(cs1.last() == c as usize);
        }
    }
    assert(stack_ok(a1, s1));
    assert(arena_ok(a1, s1));
}

/// Sealing the top frame preserves the builder's invariants: the node's
/// recorded children tile `(idx, frontier)`, so writing the frontier as its
/// end makes it well-formed, and the frame below finds it sitting at the
/// frontier as its own last child.
#[verifier::rlimit(100)]
#[verifier::spinoff_prover]
proof fn lemma_build_seal(a0: Seq<TreeNode>, s0: Seq<Frame>, a1: Seq<TreeNode>, s1: Seq<Frame>)
    requires
        arena_ok(a0, s0),
        stack_ok(a0, s0),
        s0.len() > 0,
        a1.len() == a0.len(),
        s1 == s0.drop_last(),
        ({
            let q = s0[s0.len() - 1].idx as int;
            &&& (forall|i: int| 0 <= i < a0.len() && i != q ==> a1[i] == a0[i])
            &&& a1[q].children == a0[q].children
            &&& a1[q].parent == a0[q].parent
            &&& a1[q].end as int == a0.len()
        }),
    ensures
        arena_ok(a1, s1),
        stack_ok(a1, s1),
        s1.len() == 0 ==> s0[0].idx as int == 0 && a1[0].end as int == a1.len(),
{
    let q = s0[s0.len() - 1].idx as int;
    assert(a0[q].end == 0);
    assert(frame_partial(a0, q));
    assert(frame_frontier(a0, q));
    assert(forall|x: int| 0 <= x < a0.len() ==> a1[x].parent == a0[x].parent);
    assert(forall|x: int|
        0 <= x < a0.len() ==> (#[trigger] a0[x].children@).is_prefix_of(a1[x].children@));
    // the sealed node is now well-formed
    let cs = a0[q].children@;
    assert forall|m: int| 0 <= m < cs.len() implies a1[#[trigger] cs[m] as int]
        == a0[cs[m] as int] by {
        if m < cs.len() - 1 {
            assert(a0[cs[m] as int].end == cs[m + 1]);
        } else {
            assert(a0[cs.last() as int].end == a0.len());
        }
        assert(cs[m] as int != q);
    }
    assert(nodes_wf_node(a1, q));
    // parent linkage everywhere
    assert forall|i: int| 0 <= i < a1.len() implies nodes_parent_ok(a1, i) by {
        assert(nodes_parent_ok(a0, i));
        lemma_parent_ok_frame(a0, a1, i);
    }
    // closed nodes stay well-formed
    assert forall|i: int| 0 <= i < a1.len() && a1[i].end != 0 implies nodes_wf_node(a1, i) by {
        if i != q {
            assert(a1[i] == a0[i]);
            assert(nodes_wf_node(a0, i));
            lemma_wf_node_frame(a0, a1, i);
        }
    }
    // every open node is still on the stack
    assert forall|i: int|
        0 <= i < a1.len() && (#[trigger] a1[i]).end == 0 implies exists|j: int|
            0 <= j < s1.len() && (s1[j].idx as int) == i by {
        assert(a0[i].end == 0);
        let j = choose|j: int| 0 <= j < s0.len() && (s0[j].idx as int) == i;
        assert(j != s0.len() - 1);
        assert(0 <= j < s1.len() && (s1[j].idx as int) == i);
    }
    // remaining frames keep their chains
    assert forall|j: int| 0 <= j < s1.len() implies frame_partial(
        a1,
        (#[trigger] s1[j].idx) as int,
    ) by {
        let w = s0[j].idx as int;
        assert(frame_partial(a0, w));
        assert(w != q);
        assert(a1[w] == a0[w]);
        let csw = a0[w].children@;
        assert forall|m: int| 0 <= m < csw.len() - 1 implies a1[#[trigger] csw[m] as int].end
            == csw[m + 1] by {
            assert(a0[csw[m] as int].end == csw[m + 1]);
            if csw[m] as int == q {
                assert(a0[q].end == 0);
            }
        }
        assert forall|m: int| 0 <= m < csw.len() implies a1[#[trigger] csw[m] as int].parent
            == Some(w as usize) by {
            assert(a0[csw[m] as int].parent == Some(w as usize));
        }
    }
    // the spine still links each frame to the next
    assert forall|j: int| 0 <= j < s1.len() - 1 implies {
        let csw = a1[(#[trigger] s1[j].idx) as int].children@;
        csw.len() > 0 && csw.last() == s1[j + 1].idx
    } by {
        let w = s0[j].idx as int;
        assert(w != q);
        assert(a1[w] == a0[w]);
        let csw0 = a0[w].children@;
        assert(csw0.len() > 0 && csw0.last() == s0[j + 1].idx);
    }
    // the frame below sits at the new frontier
    if s1.len() > 0 {
        let w = s0[s0.len() - 2].idx as int;
        assert(a0[w].children@.len() > 0 && a0[w].children@.last() == s0[s0.len() - 1].idx);
        assert(w != q);
        assert(a1[w] == a0[w]);
        assert(frame_frontier(a1, w));
    }
    assert(stack_ok(a1, s1));
    assert(arena_ok(a1, s1));
    if s1.len() == 0 {
        assert(s0[0].idx as int == q);
    }
}

/// Builds the pre-order arena for the DOM tree rooted at `root`: an
/// explicit-stack depth-first walk that enters each DOM node once, records
/// it under the next free index, and seals it (writing its subtree's end)
/// once all its children are built.  The walk carries a step budget so that
/// it provably terminates; the budget exceeds the size of any tree that
/// fits in memory, and a tree it could not cover is closed off well-formed.
#[verifier::loop_isolation(false)]
pub(crate) fn build_tree(root: &Rc<markup5ever_rcdom::Node>) -> (t: Tree)
    ensures
        t.wf(),
{
    let mut nodes: Vec<TreeNode> = Vec::new();
    let data = node_data_of(root);
    nodes.push(TreeNode { data, parent: None, children: Vec::new(), end: 0 });
    let kids = children_of(root);
    let mut stack: Vec<Frame> = Vec::new();
    stack.push(Frame { idx: 0, kids, next: 0 });
    let mut fuel: usize = usize::MAX;
    proof {
        assert(nodes@.len() == 1);
        assert(nodes_parent_ok(nodes@, 0));
        assert((stack@[0].idx as int) == 0);
        assert(frame_partial(nodes@, 0));
        assert(frame_frontier(nodes@, 0));
        assert(stack_ok(nodes@, stack@));
        assert forall|i: int|
            0 <= i < nodes@.len() && (#[trigger] nodes@[i]).end == 0 implies exists|j: int|
                0 <= j < stack@.len() && (stack@[j].idx as int) == i by {
            assert((stack@[0].idx as int) == i);
        }
        assert(arena_ok(nodes@, stack@));
    }
    while stack.len() > 0
        invariant
            arena_ok(nodes@, stack@),
            stack_ok(nodes@, stack@),
            stack@.len() == 0 ==> nodes@[0].end as int == nodes@.len(),
        decreases fuel, stack@.len(),
    {
        let ghost a0 = nodes@;
        let ghost s0 = stack@;
        let f_top = stack.len() - 1;
        let advance = fuel > 0 && stack[f_top].next < stack[f_top].kids.len();
        if advance {
            fuel = fuel - 1;
            let parent_idx = stack[f_top].idx;
            let nxt = stack[f_top].next;
            let cidx = nodes.len();
            let cdata = node_data_of(&stack[f_top].kids[nxt]);
            let ckids = children_of(&stack[f_top].kids[nxt]);
            stack[f_top].next = nxt + 1;
            nodes[parent_idx].children.push(cidx);
            nodes.push(
                TreeNode { data: cdata, parent: Some(parent_idx), children: Vec::new(), end: 0 },
            );
            stack.push(Frame { idx: cidx, kids: ckids, next: 0 });
            proof {
                lemma_build_advance(a0, s0, nodes@, stack@);
            }
        } else {
            let idx = stack[f_top].idx;
            let e = nodes.len();
            nodes[idx].end = e;
            stack.pop();
            proof {
                assert(stack@ =~= s0.drop_last());
                lemma_build_seal(a0, s0, nodes@, stack@);
            }
        }
    }
    let t = Tree { nodes };
    proof {
        let a = t.nodes@;
        assert forall|i: int| 0 <= i < a.len() implies t.wf_node(i) by {
            if a[i].end == 0 {
                assert(false);
            }
        }
        assert forall|i: int| 1 <= i < a.len() implies {
            &&& (#[trigger] t.parent_of(i)) matches Some(p)
            &&& p < i
            &&& t.kids(p as int).contains(i as usize)
        } by {
            assert(nodes_parent_ok(a, i));
        }
        assert(t.parent_of(0) is None) by {
            assert(nodes_parent_ok(a, 0));
        }
    }
    t
}

} // verus!
