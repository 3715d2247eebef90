//! Handles to nodes of a parsed tree, and the convenience methods they
//! carry: variant tests, the node's name, case-insensitive attribute lookup,
//! and navigation to the parent.

use vstd::prelude::*;
use std::rc::Rc;
use crate::dom::{clone_tree_rc, Attr, NodeData, Tree};
use crate::strutil::{
    eq_ci, lemma_views_of, lex_le, lex_le_exec, sort_lex, sort_strings, str_eq_ci, views_of,
};

verus! {

/// A shared, cheap-to-clone reference to one node of a parsed tree.
pub struct NodeHandle {
    tree: Rc<Tree>,
    idx: usize,
}

/// The first attribute in `attrs` whose name equals `name` ASCII
/// case-insensitively, if any; lookup yields its value.
pub open spec fn first_attr_ci(attrs: Seq<Attr>, name: Seq<char>) -> Option<Seq<char>>
    decreases attrs.len(),
{
    if attrs.len() == 0 {
        None
    } else if eq_ci(attrs[0].name@, name) {
        Some(attrs[0].value@)
    } else {
        first_attr_ci(attrs.drop_first(), name)
    }
}

/// The name of node `i` of `t`: an element's local name, or a bracketed
/// sentinel naming the variant.
pub open spec fn name_spec(t: Tree, i: int) -> Seq<char> {
    match t.node(i).data {
        NodeData::Document => "[document]"@,
        NodeData::Doctype => "[doctype]"@,
        NodeData::Text { .. } => "[text]"@,
        NodeData::Comment { .. } => "[comment]"@,
        NodeData::ProcessingInstruction => "[processing-instruction]"@,
        NodeData::Element { name, .. } => name@,
    }
}

/// Attribute lookup on node `i` of `t`: the value of the first attribute
/// whose name matches `name` ASCII case-insensitively; `None` on non-element
/// nodes and when no attribute matches.
pub open spec fn get_spec(t: Tree, i: int, name: Seq<char>) -> Option<Seq<char>> {
    match t.node(i).data {
        NodeData::Element { attrs, .. } => first_attr_ci(attrs@, name),
        _ => None,
    }
}

/// Lookup ignores case step by step: two names that are ASCII
/// case-insensitively equal find the same first attribute.
proof fn lemma_first_attr_ci_eq(attrs: Seq<Attr>, n1: Seq<char>, n2: Seq<char>)
    requires
        eq_ci(n1, n2),
    ensures
        first_attr_ci(attrs, n1) == first_attr_ci(attrs, n2),
    decreases attrs.len(),
{
    if attrs.len() > 0 {
        lemma_first_attr_ci_eq(attrs.drop_first(), n1, n2);
    }
}

/// Case-insensitive attribute lookup: two attribute names that differ only
/// in ASCII case look up the same value on every node, so querying `get`
/// with either spelling returns the same result.
pub proof fn lemma_get_case_insensitive(t: Tree, i: int, n1: Seq<char>, n2: Seq<char>)
    requires
        eq_ci(n1, n2),
    ensures
        get_spec(t, i, n1) == get_spec(t, i, n2),
{
    match t.node(i).data {
        NodeData::Element { attrs, .. } => {
            lemma_first_attr_ci_eq(attrs@, n1, n2);
        },
        _ => {},
    }
}

/// The text of the subtree rooted at `i`: the contents of every text node
/// in it, concatenated without separators in document order.
pub open spec fn text_of(t: Tree, i: int) -> Seq<char>
    decreases t.end_of(i) - i, t.kids(i).len() + 1,
    when t.wf() && t.in_range(i)
{
    let own = match t.node(i).data {
        NodeData::Text { contents } => contents@,
        _ => Seq::<char>::empty(),
    };
    own + text_of_kids(t, i, 0)
}

/// The concatenated text of the subtrees of the children of `i`, from child
/// position `k` on.
pub open spec fn text_of_kids(t: Tree, i: int, k: int) -> Seq<char>
    decreases t.end_of(i) - i, t.kids(i).len() - k,
    when t.wf() && t.in_range(i) && 0 <= k
    via text_of_kids_decreases
{
    if k >= t.kids(i).len() {
        Seq::<char>::empty()
    } else {
        text_of(t, t.kids(i)[k] as int) + text_of_kids(t, i, k + 1)
    }
}

#[via_fn]
proof fn text_of_kids_decreases(t: Tree, i: int, k: int) {
    if k < t.kids(i).len() {
        let c = t.kids(i)[k] as int;
        assert(t.wf_node(i));
        assert(t.kids(i)[k] == t.node(i).children@[k]);
        assert(i < c && c < t.end_of(i));
        assert(t.wf_node(c));
        if k + 1 < t.kids(i).len() {
            assert(t.node(i).children@[k + 1] < t.node(i).end);
        } else {
            assert(t.end_of(c) == t.end_of(i));
        }
    }
}

/// One attribute rendered as `name="value"`.
pub open spec fn attr_str(a: Attr) -> Seq<char> {
    a.name@ + "=\""@ + a.value@ + "\""@
}

/// The rendered forms of all attributes of a bag, in bag order.
pub open spec fn attr_strs(attrs: Seq<Attr>) -> Seq<Seq<char>> {
    attrs.map_values(|a: Attr| attr_str(a))
}

/// The rendered attributes, elementwise.
proof fn lemma_attr_strs(attrs: Seq<Attr>)
    ensures
        attr_strs(attrs).len() == attrs.len(),
        forall|i: int| 0 <= i < attrs.len() ==> #[trigger] attr_strs(attrs)[i] == attr_str(
            attrs[i],
        ),
{
}

/// The given strings joined with single spaces.
pub open spec fn join_space(s: Seq<Seq<char>>) -> Seq<char> {
    if s.len() == 0 {
        Seq::<char>::empty()
    } else {
        s[0] + join_tail(s, 1)
    }
}

/// The strings from position `k` on, each preceded by one space.
pub open spec fn join_tail(s: Seq<Seq<char>>, k: int) -> Seq<char>
    decreases s.len() - k,
{
    if k >= s.len() {
        Seq::<char>::empty()
    } else {
        seq![' '] + s[k] + join_tail(s, k + 1)
    }
}

/// The subtree rooted at `i` rendered as an HTML fragment: elements produce
/// `<name[ attrs]>children</name>` with attributes rendered in sorted
/// order and double-quoted; text nodes produce their raw contents; comments
/// produce `<!--contents-->`; other variants produce the empty string.
pub open spec fn render(t: Tree, i: int) -> Seq<char>
    decreases t.end_of(i) - i, t.kids(i).len() + 1,
    when t.wf() && t.in_range(i)
{
    match t.node(i).data {
        NodeData::Element { name, attrs } => {
            let sorted = sort_lex(attr_strs(attrs@));
            let head = if sorted.len() == 0 {
                "<"@ + name@ + ">"@
            } else {
                "<"@ + name@ + " "@ + join_space(sorted) + ">"@
            };
            head + render_kids(t, i, 0) + "</"@ + name@ + ">"@
        },
        NodeData::Text { contents } => contents@,
        NodeData::Comment { contents } => "<!--"@ + contents@ + "-->"@,
        _ => Seq::<char>::empty(),
    }
}

/// The concatenated renderings of the subtrees of the children of `i`, from
/// child position `k` on.
pub open spec fn render_kids(t: Tree, i: int, k: int) -> Seq<char>
    decreases t.end_of(i) - i, t.kids(i).len() - k,
    when t.wf() && t.in_range(i) && 0 <= k
    via render_kids_decreases
{
    if k >= t.kids(i).len() {
        Seq::<char>::empty()
    } else {
        render(t, t.kids(i)[k] as int) + render_kids(t, i, k + 1)
    }
}

#[via_fn]
proof fn render_kids_decreases(t: Tree, i: int, k: int) {
    if k < t.kids(i).len() {
        let c = t.kids(i)[k] as int;
        assert(t.wf_node(i));
        assert(t.kids(i)[k] == t.node(i).children@[k]);
        assert(i < c && c < t.end_of(i));
        assert(t.wf_node(c));
        if k + 1 < t.kids(i).len() {
            assert(t.node(i).children@[k + 1] < t.node(i).end);
        } else {
            assert(t.end_of(c) == t.end_of(i));
        }
    }
}

/// `x` inserted into `s` after every attribute whose name sorts at or
/// before its own.
pub open spec fn insert_attr(x: Attr, s: Seq<Attr>) -> Seq<Attr>
    decreases s.len(),
{
    if s.len() == 0 {
        seq![x]
    } else if lex_le(s[0].name@, x.name@) {
        seq![s[0]] + insert_attr(x, s.drop_first())
    } else {
        seq![x] + s
    }
}

/// Insertion sort of an attribute bag into lexicographic order of names.
pub open spec fn sort_attrs(s: Seq<Attr>) -> Seq<Attr>
    decreases s.len(),
{
    if s.len() == 0 {
        s
    } else {
        insert_attr(s[0], sort_attrs(s.drop_first()))
    }
}

/// Where an attribute insertion lands: if the first `j` names sort at or
/// before `x`'s and the `j`-th (if any) does not, `x` goes at position `j`.
proof fn lemma_insert_attr_at(x: Attr, s: Seq<Attr>, j: int)
    requires
        0 <= j <= s.len(),
        forall|m: int| 0 <= m < j ==> lex_le((#[trigger] s[m]).name@, x.name@),
        j < s.len() ==> !lex_le(s[j].name@, x.name@),
    ensures
        insert_attr(x, s) == s.take(j) + seq![x] + s.skip(j),
    decreases j,
{
    if j == 0 {
        assert(insert_attr(x, s) =~= s.take(0) + seq![x] + s.skip(0));
    } else {
        let t = s.drop_first();
        assert(forall|m: int| 0 <= m < j - 1 ==> (#[trigger] t[m]) == s[m + 1]);
        lemma_insert_attr_at(x, t, j - 1);
        assert(insert_attr(x, s) =~= seq![s[0]] + (t.take(j - 1) + seq![x] + t.skip(j - 1)));
        assert(seq![s[0]] + (t.take(j - 1) + seq![x] + t.skip(j - 1)) =~= s.take(j) + seq![x]
            + s.skip(j));
    }
}

/// A copy of one attribute.
fn clone_attr(a: &Attr) -> (r: Attr)
    ensures
        r == *a,
{
    Attr { name: a.name.clone(), value: a.value.clone() }
}

/// Inserts `x` into the already name-sorted `v`, keeping it sorted.
#[verifier::loop_isolation(false)]
fn insert_attr_sorted(x: Attr, v: &Vec<Attr>) -> (r: Vec<Attr>)
    ensures
        r@ == insert_attr(x, v@),
{
    let mut out: Vec<Attr> = Vec::new();
    let n = v.len();
    let mut j: usize = 0;
    let mut more = j < n && lex_le_exec(v[j].name.as_str(), x.name.as_str());
    while more
        invariant
            j <= n,
            more ==> j < n && lex_le(v@[j as int].name@, x.name@),
            !more ==> j == n || !lex_le(v@[j as int].name@, x.name@),
            out@ =~= v@.take(j as int),
            forall|m: int| 0 <= m < j ==> lex_le((#[trigger] v@[m]).name@, x.name@),
        decreases n - j,
    {
        out.push(clone_attr(&v[j]));
        proof {
            assert(out@ =~= v@.take(j + 1));
        }
        j = j + 1;
        more = j < n && lex_le_exec(v[j].name.as_str(), x.name.as_str());
    }
    proof {
        lemma_insert_attr_at(x, v@, j as int);
    }
    out.push(x);
    proof {
        assert(out@ =~= v@.take(j as int) + seq![x] + v@.subrange(j as int, j as int));
    }
    let mut m: usize = j;
    while m < n
        invariant
            j <= m <= n,
            out@ =~= v@.take(j as int) + seq![x] + v@.subrange(j as int, m as int),
        decreases n - m,
    {
        out.push(clone_attr(&v[m]));
        proof {
            assert(out@ =~= v@.take(j as int) + seq![x] + v@.subrange(j as int, m + 1));
        }
        m = m + 1;
    }
    proof {
        assert(v@.subrange(j as int, n as int) =~= v@.skip(j as int));
        assert(out@ =~= insert_attr(x, v@));
    }
    out
}

/// Sorts an attribute bag into lexicographic order of names.
#[verifier::loop_isolation(false)]
fn sort_attrs_exec(v: &Vec<Attr>) -> (r: Vec<Attr>)
    ensures
        r@ == sort_attrs(v@),
{
    let mut out: Vec<Attr> = Vec::new();
    let n = v.len();
    let mut idx: usize = n;
    proof {
        assert(v@.skip(n as int) =~= Seq::<Attr>::empty());
        assert(out@ =~= sort_attrs(v@.skip(n as int)));
    }
    while idx > 0
        invariant
            idx <= n,
            out@ == sort_attrs(v@.skip(idx as int)),
        decreases idx,
    {
        idx = idx - 1;
        let out2 = insert_attr_sorted(clone_attr(&v[idx]), &out);
        out = out2;
        proof {
            let t = v@.skip(idx as int);
            assert(t[0] == v@[idx as int]);
            assert(t.drop_first() =~= v@.skip(idx + 1));
            assert(out@ =~= sort_attrs(v@.skip(idx as int)));
        }
    }
    proof {
        assert(v@.skip(0) =~= v@);
    }
    out
}

/// The attribute bag of node `i`, sorted by attribute name; empty for
/// non-element nodes.
pub open spec fn attrs_spec(t: Tree, i: int) -> Seq<Attr> {
    match t.node(i).data {
        NodeData::Element { attrs, .. } => sort_attrs(attrs@),
        _ => Seq::<Attr>::empty(),
    }
}

/// Renders the subtree rooted at `i` as an HTML fragment.
#[verifier::loop_isolation(false)]
fn render_node(t: &Tree, i: usize) -> (r: String)
    requires
        t.wf(),
        i < t.nodes@.len(),
    ensures
        r@ == render(*t, i as int),
    decreases t.end_of(i as int) - i,
{
    proof {
        assert(t.wf_node(i as int));
    }
    match &t.nodes[i].data {
        NodeData::Element { name, attrs } => {
            let mut rendered: Vec<String> = Vec::new();
            let na = attrs.len();
            let mut j: usize = 0;
            proof {
                lemma_views_of(rendered@);
                lemma_attr_strs(attrs@);
                assert(views_of(rendered@) =~= attr_strs(attrs@).take(0));
            }
            while j < na
                invariant
                    j <= na,
                    views_of(rendered@) == attr_strs(attrs@).take(j as int),
                decreases na - j,
            {
                let mut s0 = String::new();
                s0.append(attrs[j].name.as_str());
                s0.append("=\"");
                s0.append(attrs[j].value.as_str());
                s0.append("\"");
                proof {
                    assert(s0@ =~= attr_str(attrs@[j as int]));
                }
                let ghost prevr = rendered@;
                rendered.push(s0);
                proof {
                    lemma_views_of(prevr);
                    lemma_views_of(rendered@);
                    assert(views_of(rendered@) =~= attr_strs(attrs@).take(j + 1));
                }
                j = j + 1;
            }
            proof {
                assert(attr_strs(attrs@).take(na as int) =~= attr_strs(attrs@));
            }
            let sorted = sort_strings(&rendered);
            let ghost sv = views_of(sorted@);
            proof {
                lemma_views_of(sorted@);
            }
            let mut head = String::new();
            head.append("<");
            head.append(name.as_str());
            if sorted.len() > 0 {
                head.append(" ");
                let mut joined = String::new();
                joined.append(sorted[0].as_str());
                let ns = sorted.len();
                let mut k2: usize = 1;
                proof {
                    assert(joined@ =~= sv[0]);
                }
                while k2 < ns
                    invariant
                        1 <= k2 <= ns,
                        joined@ + join_tail(sv, k2 as int) == join_space(sv),
                    decreases ns - k2,
                {
                    let ghost jv = joined@;
                    joined.append(" ");
                    joined.append(sorted[k2].as_str());
                    proof {
                        reveal_strlit(" ");
                        assert(" "@ =~= seq![' ']);
                        assert(join_tail(sv, k2 as int) == seq![' '] + sv[k2 as int] + join_tail(
                            sv,
                            k2 + 1,
                        ));
                        assert(joined@ + join_tail(sv, k2 + 1) =~= jv + join_tail(
                            sv,
                            k2 as int,
                        ));
                    }
                    k2 = k2 + 1;
                }
                proof {
                    assert(join_tail(sv, ns as int) =~= Seq::<char>::empty());
                    assert(joined@ =~= join_space(sv));
                }
                head.append(joined.as_str());
            }
            head.append(">");
            proof {
                if sv.len() == 0 {
                    assert(head@ =~= "<"@ + name@ + ">"@);
                } else {
                    assert(head@ =~= "<"@ + name@ + " "@ + join_space(sv) + ">"@);
                }
            }
            let ghost base = head@;
            let cs = &t.nodes[i].children;
            let n = cs.len();
            let mut k: usize = 0;
            proof {
                assert(head@ + render_kids(*t, i as int, 0) =~= base + render_kids(
                    *t,
                    i as int,
                    0,
                ));
            }
            while k < n
                invariant
                    k <= n,
                    head@ + render_kids(*t, i as int, k as int) == base + render_kids(
                        *t,
                        i as int,
                        0,
                    ),
                decreases n - k,
            {
                let c = cs[k];
                proof {
                    assert(t.kids(i as int)[k as int] == c);
                    assert(i < c && (c as int) < t.end_of(i as int));
                    assert(t.end_of(c as int) <= t.end_of(i as int)) by {
                        if k + 1 < n {
                            assert(t.kids(i as int)[k as int + 1] < t.node(i as int).end);
                        } else {
                            assert(t.end_of(c as int) == t.end_of(i as int));
                        }
                    }
                    assert(t.wf_node(c as int));
                }
                let piece = render_node(t, c);
                let ghost hv = head@;
                head.append(piece.as_str());
                proof {
                    assert(render_kids(*t, i as int, k as int) == render(*t, c as int)
                        + render_kids(*t, i as int, k + 1));
                    assert(head@ + render_kids(*t, i as int, k + 1) =~= hv + render_kids(
                        *t,
                        i as int,
                        k as int,
                    ));
                }
                k = k + 1;
            }
            proof {
                assert(render_kids(*t, i as int, n as int) =~= Seq::<char>::empty());
                assert(head@ =~= base + render_kids(*t, i as int, 0));
            }
            head.append("</");
            head.append(name.as_str());
            head.append(">");
            proof {
                assert(head@ =~= render(*t, i as int));
            }
            head
        },
        NodeData::Text { contents } => {
            contents.clone()
        },
        NodeData::Comment { contents } => {
            let mut s0 = String::new();
            s0.append("<!--");
            s0.append(contents.as_str());
            s0.append("-->");
            proof {
                assert(s0@ =~= "<!--"@ + contents@ + "-->"@);
            }
            s0
        },
        _ => {
            String::new()
        },
    }
}

/// Appends the text of the subtree rooted at `i` to `out`.
#[verifier::loop_isolation(false)]
fn extract_text(t: &Tree, i: usize, out: &mut String)
    requires
        t.wf(),
        i < t.nodes@.len(),
    ensures
        final(out)@ == old(out)@ + text_of(*t, i as int),
    decreases t.end_of(i as int) - i,
{
    proof {
        assert(t.wf_node(i as int));
    }
    match &t.nodes[i].data {
        NodeData::Text { contents } => {
            out.append(contents.as_str());
        },
        _ => {},
    }
    let cs = &t.nodes[i].children;
    let n = cs.len();
    let mut k: usize = 0;
    proof {
        assert(out@ + text_of_kids(*t, i as int, 0) =~= old(out)@ + text_of(*t, i as int));
    }
    while k < n
        invariant
            k <= n,
            out@ + text_of_kids(*t, i as int, k as int) == old(out)@ + text_of(*t, i as int),
        decreases n - k,
    {
        let c = cs[k];
        proof {
            assert(t.kids(i as int)[k as int] == c);
            assert(i < c && (c as int) < t.end_of(i as int));
            assert(t.end_of(c as int) <= t.end_of(i as int)) by {
                if k + 1 < n {
                    assert(t.kids(i as int)[k as int + 1] < t.node(i as int).end);
                } else {
                    assert(t.end_of(c as int) == t.end_of(i as int));
                }
            }
        }
        proof {
            assert(t.wf_node(c as int));
        }
        let ghost before = out@;
        extract_text(t, c, out);
        proof {
            assert(text_of_kids(*t, i as int, k as int) == text_of(*t, c as int) + text_of_kids(
                *t,
                i as int,
                k + 1,
            ));
            assert(out@ + text_of_kids(*t, i as int, k + 1) =~= before + text_of_kids(
                *t,
                i as int,
                k as int,
            ));
        }
        k = k + 1;
    }
    proof {
        assert(text_of_kids(*t, i as int, n as int) =~= Seq::<char>::empty());
        assert(out@ + Seq::<char>::empty() =~= out@);
    }
}

impl NodeHandle {
    /// Every handle points into a well-formed tree.
    #[verifier::type_invariant]
    pub closed spec fn inv(self) -> bool {
        &&& self.tree.wf()
        &&& self.idx < self.tree.nodes@.len()
    }

    /// The tree this handle points into.
    pub closed spec fn tree_spec(self) -> Tree {
        *self.tree
    }

    /// The index of the node this handle designates.
    pub closed spec fn idx_spec(self) -> int {
        self.idx as int
    }

    /// Builds the handle for node `idx` of `tree`.
    pub(crate) fn make(tree: Rc<Tree>, idx: usize) -> (r: NodeHandle)
        requires
            tree.wf(),
            idx < tree.nodes@.len(),
        ensures
            r.tree_spec() == tree,
            r.idx_spec() == idx as int,
    {
        NodeHandle { tree, idx }
    }

    /// Dissolves the handle into its tree reference and node index.
    pub(crate) fn raw(self) -> (r: (Rc<Tree>, usize))
        ensures
            r.0 == self.tree_spec(),
            r.1 as int == self.idx_spec(),
            r.0.wf(),
            (r.1 as int) < r.0.nodes@.len(),
    {
        proof {
            use_type_invariant(&self);
        }
        let NodeHandle { tree, idx } = self;
        (tree, idx)
    }

    /// A new handle to the same node.
    pub fn duplicate(&self) -> (r: NodeHandle)
        ensures
            r.tree_spec() == self.tree_spec(),
            r.idx_spec() == self.idx_spec(),
    {
        proof {
            use_type_invariant(self);
        }
        NodeHandle { tree: clone_tree_rc(&self.tree), idx: self.idx }
    }

    /// The payload of the node this handle designates.
    pub(crate) fn data(&self) -> (r: &NodeData)
        ensures
            *r == self.tree_spec().node(self.idx_spec()).data,
    {
        proof {
            use_type_invariant(self);
        }
        &self.tree.nodes[self.idx].data
    }

    /// Returns `true` if the node is of type Document.
    pub fn is_document(&self) -> (r: bool)
        ensures
            r == self.tree_spec().node(self.idx_spec()).data.is_document(),
    {
        matches!(self.data(), NodeData::Document)
    }

    /// Returns `true` if the node is of type Doctype.
    pub fn is_doctype(&self) -> (r: bool)
        ensures
            r == self.tree_spec().node(self.idx_spec()).data.is_doctype(),
    {
        matches!(self.data(), NodeData::Doctype)
    }

    /// Returns `true` if the node is of type Text.
    pub fn is_text(&self) -> (r: bool)
        ensures
            r == self.tree_spec().node(self.idx_spec()).data.is_text(),
    {
        matches!(self.data(), NodeData::Text { .. })
    }

    /// Returns `true` if the node is of type Comment.
    pub fn is_comment(&self) -> (r: bool)
        ensures
            r == self.tree_spec().node(self.idx_spec()).data.is_comment(),
    {
        matches!(self.data(), NodeData::Comment { .. })
    }

    /// Returns `true` if the node is of type ProcessingInstruction.
    pub fn is_processing_instruction(&self) -> (r: bool)
        ensures
            r == self.tree_spec().node(self.idx_spec()).data.is_processing_instruction(),
    {
        matches!(self.data(), NodeData::ProcessingInstruction)
    }

    /// Returns `true` if the node is of type Element.
    pub fn is_element(&self) -> (r: bool)
        ensures
            r == self.tree_spec().node(self.idx_spec()).data.is_element(),
    {
        matches!(self.data(), NodeData::Element { .. })
    }

    /// Retrieves the name of the node: an element's local name, or one of
    /// the sentinels `[document]`, `[doctype]`, `[text]`, `[comment]`,
    /// `[processing-instruction]`.
    pub fn name(&self) -> (r: String)
        ensures
            r@ == name_spec(self.tree_spec(), self.idx_spec()),
    {
        match self.data() {
            NodeData::Document => String::from_str("[document]"),
            NodeData::Doctype => String::from_str("[doctype]"),
            NodeData::Text { .. } => String::from_str("[text]"),
            NodeData::Comment { .. } => String::from_str("[comment]"),
            NodeData::ProcessingInstruction => String::from_str("[processing-instruction]"),
            NodeData::Element { name, .. } => name.clone(),
        }
    }

    /// Looks for an attribute named `attr` (ASCII case-insensitively) and
    /// returns its value; `None` when the node carries no such attribute.
    #[verifier::loop_isolation(false)]
    pub fn get(&self, attr: &str) -> (r: Option<String>)
        ensures
            match r {
                Some(v) => get_spec(self.tree_spec(), self.idx_spec(), attr@) == Some(v@),
                None => get_spec(self.tree_spec(), self.idx_spec(), attr@) is None,
            },
    {
        match self.data() {
            NodeData::Element { attrs, .. } => {
                let n = attrs.len();
                let mut j: usize = 0;
                proof {
                    assert(attrs@.subrange(0, n as int) =~= attrs@);
                }
                while j < n
                    invariant
                        n == attrs@.len(),
                        j <= n,
                        first_attr_ci(attrs@, attr@) == first_attr_ci(
                            attrs@.subrange(j as int, n as int),
                            attr@,
                        ),
                    decreases n - j,
                {
                    let a = &attrs[j];
                    proof {
                        assert(attrs@.subrange(j as int, n as int)[0] == attrs@[j as int]);
                        assert(attrs@.subrange(j as int, n as int).drop_first() =~= attrs@
                            .subrange(j + 1, n as int));
                    }
                    if str_eq_ci(a.name.as_str(), attr) {
                        return Some(a.value.clone());
                    }
                    j = j + 1;
                }
                proof {
                    assert(attrs@.subrange(n as int, n as int).len() == 0);
                }
                None
            },
            _ => None,
        }
    }

    /// Retrieves the text of this node and its descendants: every text
    /// node's contents, concatenated in document order.
    pub fn text(&self) -> (r: String)
        ensures
            r@ == text_of(self.tree_spec(), self.idx_spec()),
    {
        proof {
            use_type_invariant(self);
        }
        let mut out = String::new();
        extract_text(&self.tree, self.idx, &mut out);
        proof {
            assert(Seq::<char>::empty() + text_of(self.tree_spec(), self.idx_spec())
                =~= text_of(self.tree_spec(), self.idx_spec()));
        }
        out
    }

    /// Returns the node's attributes as a list of (name, value) pairs
    /// ordered lexicographically by name.
    pub fn attrs(&self) -> (r: Vec<Attr>)
        ensures
            r@ == attrs_spec(self.tree_spec(), self.idx_spec()),
    {
        match self.data() {
            NodeData::Element { attrs, .. } => sort_attrs_exec(attrs),
            _ => Vec::new(),
        }
    }

    /// Returns the node as an HTML fragment: elements as
    /// `<name[ attrs]>children</name>` with attributes sorted and quoted,
    /// text nodes as their raw contents, comments as `<!--contents-->`, and
    /// everything else as the empty string.
    pub fn display(&self) -> (r: String)
        ensures
            r@ == render(self.tree_spec(), self.idx_spec()),
    {
        proof {
            use_type_invariant(self);
        }
        render_node(&self.tree, self.idx)
    }

    /// Navigates to the parent of the node, if there is one; the document
    /// root has none.
    pub fn parent(&self) -> (r: Option<NodeHandle>)
        ensures
            match r {
                Some(h) => {
                    &&& h.tree_spec() == self.tree_spec()
                    &&& self.tree_spec().parent_of(self.idx_spec()) == Some(
                        h.idx_spec() as usize,
                    )
                },
                None => self.tree_spec().parent_of(self.idx_spec()) is None,
            },
    {
        proof {
            use_type_invariant(self);
        }
        match self.tree.nodes[self.idx].parent {
            Some(p) => Some(NodeHandle { tree: clone_tree_rc(&self.tree), idx: p }),
            None => None,
        }
    }
}

} // verus!
