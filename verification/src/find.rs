//! The query surface: typed node predicates, the chainable query builder,
//! and the lazy traversal iterator that yields matching nodes in document
//! order.

use vstd::prelude::*;
use std::rc::Rc;
use crate::attribute::{list_aware_match, list_aware_match_spec};
use crate::dom::{clone_tree_rc, index_interval, lemma_preorder_is_interval, preorder, NodeData, Tree};
use crate::node_ext::NodeHandle;
use crate::pattern::Pattern;

verus! {

/// A predicate over nodes of a tree.  Each query carries its meaning as a
/// specification-level predicate, and its executable `matches` method
/// decides exactly that predicate.
pub trait Query: Sized {
    /// Whether node `i` of `t` satisfies the query.
    spec fn q_matches(&self, t: Tree, i: int) -> bool;

    /// Decides `q_matches` at node `i` of `t`.
    fn matches(&self, t: &Tree, i: usize) -> (r: bool)
        requires
            i < t.nodes@.len(),
        ensures
            r == self.q_matches(*t, i as int),
    ;
}

/// What a tag query asks of node `i`: the node is an element and its local
/// name satisfies the pattern.
pub open spec fn tag_matches<P: Pattern>(p: P, t: Tree, i: int) -> bool {
    match t.node(i).data {
        NodeData::Element { name, .. } => p.spec_matches(name@),
        _ => false,
    }
}

/// Matches elements whose local name satisfies a pattern; non-element nodes
/// never match.
pub struct TagQuery<P> {
    inner: P,
}

impl<P: Pattern> TagQuery<P> {
    /// The pattern the element name must satisfy.
    pub closed spec fn pattern_spec(self) -> P {
        self.inner
    }

    /// Builds a tag query from a pattern.
    pub fn new(inner: P) -> (r: TagQuery<P>)
        ensures
            r.pattern_spec() == inner,
    {
        TagQuery { inner }
    }
}

impl<P: Pattern> Query for TagQuery<P> {
    open spec fn q_matches(&self, t: Tree, i: int) -> bool {
        tag_matches(self.pattern_spec(), t, i)
    }

    fn matches(&self, t: &Tree, i: usize) -> (r: bool) {
        match &t.nodes[i].data {
            NodeData::Element { name, .. } => self.inner.matches(name.as_str()),
            _ => false,
        }
    }
}

/// Matches elements that carry an attribute whose name satisfies the key
/// pattern and whose value satisfies the value pattern under the list-aware
/// rule; non-element nodes never match.
pub struct AttrQuery<K, V> {
    key: K,
    value: V,
}

impl<K: Pattern, V: Pattern> AttrQuery<K, V> {
    /// The pattern the attribute name must satisfy.
    pub closed spec fn key_spec(self) -> K {
        self.key
    }

    /// The pattern the attribute value (or one of its tokens) must satisfy.
    pub closed spec fn value_spec(self) -> V {
        self.value
    }

    /// Builds an attribute query from a key pattern and a value pattern.
    pub fn new(key: K, value: V) -> (r: AttrQuery<K, V>)
        ensures
            r.key_spec() == key,
            r.value_spec() == value,
    {
        AttrQuery { key, value }
    }
}

impl<K: Pattern, V: Pattern> Query for AttrQuery<K, V> {
    open spec fn q_matches(&self, t: Tree, i: int) -> bool {
        list_aware_match_spec(&self.key_spec(), &self.value_spec(), t.node(i).data)
    }

    fn matches(&self, t: &Tree, i: usize) -> (r: bool) {
        list_aware_match(&t.nodes[i].data, &self.key, &self.value)
    }
}

impl Query for () {
    /// The identity predicate: every node matches.
    open spec fn q_matches(&self, t: Tree, i: int) -> bool {
        true
    }

    fn matches(&self, t: &Tree, i: usize) -> (r: bool) {
        true
    }
}

/// A link of the conjunction chain: one query together with the rest of the
/// chain; the whole matches when every link matches.
pub struct QueryWrapper<T: Query, U: Query> {
    inner: T,
    next: Option<U>,
}

impl<T: Query, U: Query> QueryWrapper<T, U> {
    /// This link's own query.
    pub closed spec fn inner_spec(self) -> T {
        self.inner
    }

    /// The rest of the chain, if any.
    pub closed spec fn next_spec(self) -> Option<U> {
        self.next
    }
}

/// The base of a conjunction chain: a single identity link.
pub(crate) type EmptyQueryWrapper = QueryWrapper<(), ()>;

impl EmptyQueryWrapper {
    /// The empty chain, which matches every node.
    pub(crate) fn new() -> (r: EmptyQueryWrapper)
        ensures
            r.next_spec() is None,
    {
        QueryWrapper { inner: (), next: None }
    }
}

impl<T: Query, U: Query, V: Query> QueryWrapper<T, QueryWrapper<U, V>> {
    /// Extends the chain `query` with one more link holding `inner`.
    pub(crate) fn wrap(inner: T, query: QueryWrapper<U, V>) -> (r: QueryWrapper<
        T,
        QueryWrapper<U, V>,
    >)
        ensures
            r.inner_spec() == inner,
            r.next_spec() == Some(query),
    {
        QueryWrapper { inner, next: Some(query) }
    }
}

impl<T: Query, U: Query> Query for QueryWrapper<T, U> {
    /// The conjunction of this link and the rest of the chain.
    open spec fn q_matches(&self, t: Tree, i: int) -> bool {
        &&& self.inner_spec().q_matches(t, i)
        &&& match self.next_spec() {
            Some(n) => n.q_matches(t, i),
            None => true,
        }
    }

    fn matches(&self, t: &Tree, i: usize) -> (r: bool) {
        let inner_match = self.inner.matches(t, i);
        if let Some(next) = &self.next {
            let next_match = next.matches(t, i);
            next_match && inner_match
        } else {
            inner_match
        }
    }
}

/// Whether a traversal rooted at `root` may visit node `i` at all: always
/// when recursion is on; otherwise only the root itself and its direct
/// children.
pub open spec fn allowed(t: Tree, root: int, i: int, recursive: bool) -> bool {
    ||| recursive
    ||| i == root
    ||| t.parent_of(i) == Some(root as usize)
}

/// The indices in `[lo, hi)` that a traversal rooted at `root` yields for
/// query `q`, in increasing (document) order.
pub open spec fn match_seq<Q: Query>(
    t: Tree,
    q: Q,
    root: int,
    recursive: bool,
    lo: int,
    hi: int,
) -> Seq<int>
    decreases hi - lo,
{
    if lo >= hi {
        Seq::empty()
    } else {
        let rest = match_seq(t, q, root, recursive, lo + 1, hi);
        if allowed(t, root, lo, recursive) && q.q_matches(t, lo) {
            seq![lo] + rest
        } else {
            rest
        }
    }
}

/// Every index a query yields, in document order: the matches within the
/// subtree interval of `root`.
pub open spec fn query_matches<Q: Query>(t: Tree, q: Q, root: int, recursive: bool) -> Seq<int> {
    match_seq(t, q, root, recursive, root, t.end_of(root))
}

/// `s` capped at `limit` elements (uncapped when no limit is set).
pub open spec fn limited(s: Seq<int>, limit: Option<usize>) -> Seq<int> {
    match limit {
        None => s,
        Some(n) => if s.len() <= n {
            s
        } else {
            s.take(n as int)
        },
    }
}

/// The match window's basic shape: every yielded index lies in `[lo, hi)`,
/// and the yielded indices are strictly increasing, so none repeats.
pub proof fn lemma_match_seq_increasing<Q: Query>(
    t: Tree,
    q: Q,
    root: int,
    recursive: bool,
    lo: int,
    hi: int,
)
    ensures
        forall|m: int|
            0 <= m < match_seq(t, q, root, recursive, lo, hi).len() ==> lo <= #[trigger] match_seq(
                t,
                q,
                root,
                recursive,
                lo,
                hi,
            )[m] < hi,
        forall|m1: int, m2: int|
            0 <= m1 < m2 < match_seq(t, q, root, recursive, lo, hi).len() ==> match_seq(
                t,
                q,
                root,
                recursive,
                lo,
                hi,
            )[m1] < match_seq(t, q, root, recursive, lo, hi)[m2],
    decreases hi - lo,
{
    if lo < hi {
        lemma_match_seq_increasing(t, q, root, recursive, lo + 1, hi);
        let rest = match_seq(t, q, root, recursive, lo + 1, hi);
        let s = match_seq(t, q, root, recursive, lo, hi);
        if allowed(t, root, lo, recursive) && q.q_matches(t, lo) {
            assert(s == seq![lo] + rest);
            assert(s[0] == lo);
            assert(forall|m: int| 0 < m < s.len() ==> #[trigger] s[m] == rest[m - 1]);
            assert forall|m1: int, m2: int| 0 <= m1 < m2 < s.len() implies s[m1] < s[m2] by {
                if m1 > 0 {
                    assert(s[m1] == rest[m1 - 1] && s[m2] == rest[m2 - 1]);
                } else {
                    assert(s[m2] == rest[m2 - 1]);
                    assert(lo + 1 <= rest[m2 - 1]);
                }
            }
        } else {
            assert(s == rest);
        }
    }
}

/// Membership in the match window: an index is yielded exactly when it lies
/// in the window, the recursion rule admits it, and the query matches it.
pub proof fn lemma_match_seq_contains<Q: Query>(
    t: Tree,
    q: Q,
    root: int,
    recursive: bool,
    lo: int,
    hi: int,
    i: int,
)
    ensures
        match_seq(t, q, root, recursive, lo, hi).contains(i) <==> (lo <= i < hi && allowed(
            t,
            root,
            i,
            recursive,
        ) && q.q_matches(t, i)),
    decreases hi - lo,
{
    if lo < hi {
        lemma_match_seq_contains(t, q, root, recursive, lo + 1, hi, i);
        let rest = match_seq(t, q, root, recursive, lo + 1, hi);
        let s = match_seq(t, q, root, recursive, lo, hi);
        if allowed(t, root, lo, recursive) && q.q_matches(t, lo) {
            assert(s == seq![lo] + rest);
            if i == lo {
                assert(s[0] == i);
            }
            assert(forall|m: int| 0 <= m < rest.len() ==> s[m + 1] == #[trigger] rest[m]);
            if rest.contains(i) {
                let m = choose|m: int| 0 <= m < rest.len() && rest[m] == i;
                assert(s[m + 1] == i);
            }
            if s.contains(i) && i != lo {
                let m = choose|m: int| 0 <= m < s.len() && s[m] == i;
                assert(rest[m - 1] == i);
            }
        } else {
            assert(s == rest);
        }
    }
}

/// When every index of the window is admitted and matches, the query
/// yields the whole window: the interval itself, in increasing order.
pub proof fn lemma_match_seq_all<Q: Query>(
    t: Tree,
    q: Q,
    root: int,
    recursive: bool,
    lo: int,
    hi: int,
)
    requires
        forall|i: int| lo <= i < hi ==> allowed(t, root, i, recursive) && q.q_matches(t, i),
    ensures
        match_seq(t, q, root, recursive, lo, hi) == index_interval(lo, hi),
    decreases hi - lo,
{
    if lo >= hi {
        assert(match_seq(t, q, root, recursive, lo, hi) =~= index_interval(lo, hi));
    } else {
        lemma_match_seq_all(t, q, root, recursive, lo + 1, hi);
        assert(match_seq(t, q, root, recursive, lo, hi) =~= index_interval(lo, hi));
    }
}

/// Document order (for any query, with no cap): the pre-order walk of the
/// subtree visits exactly the subtree's index interval in increasing order,
/// every yielded index is one of those, and the yielded indices strictly
/// increase -- results come in pre-order document order, without
/// duplicates.
pub proof fn lemma_document_order<Q: Query>(t: Tree, q: Q, root: int, recursive: bool)
    requires
        t.wf(),
        t.in_range(root),
    ensures
        preorder(t, root) == index_interval(root, t.end_of(root)),
        forall|m: int|
            0 <= m < query_matches(t, q, root, recursive).len() ==> preorder(t, root).contains(
                #[trigger] query_matches(t, q, root, recursive)[m],
            ),
        forall|m1: int, m2: int|
            0 <= m1 < m2 < query_matches(t, q, root, recursive).len() ==> query_matches(
                t,
                q,
                root,
                recursive,
            )[m1] < query_matches(t, q, root, recursive)[m2],
{
    lemma_preorder_is_interval(t, root);
    lemma_match_seq_increasing(t, q, root, recursive, root, t.end_of(root));
    assert(t.wf_node(root));
    assert forall|m: int|
        0 <= m < query_matches(t, q, root, recursive).len() implies preorder(t, root).contains(
        #[trigger] query_matches(t, q, root, recursive)[m],
    ) by {
        let i = query_matches(t, q, root, recursive)[m];
        assert(root <= i < t.end_of(root));
        assert(index_interval(root, t.end_of(root))[i - root] == i);
    }
}

/// The result cap: a capped sequence never exceeds the cap, an uncapped one
/// is untouched, and -- for any cap that is absent or positive -- the
/// capped sequence is empty exactly when the uncapped one is.  So `find`,
/// which asks for a single result, returns none exactly when `find_all`
/// yields nothing, except under an explicit cap of zero, which silences
/// `find_all` alone.
pub proof fn lemma_limited(s: Seq<int>, limit: Option<usize>)
    ensures
        limit matches Some(n) ==> limited(s, limit).len() <= n,
        limit is None ==> limited(s, limit) == s,
        limit != Some(0usize) ==> (limited(s, limit).len() == 0 <==> s.len() == 0),
{
}

/// The identity predicate: a fresh query chain with recursion on yields
/// every node of the subtree, in document order.
pub proof fn lemma_identity_yields_all(t: Tree, q: EmptyQueryWrapper, root: int)
    requires
        t.wf(),
        t.in_range(root),
        q.next_spec() is None,
    ensures
        query_matches(t, q, root, true) == index_interval(root, t.end_of(root)),
{
    lemma_match_seq_all(t, q, root, true, root, t.end_of(root));
}

/// Soundness of the tag predicate: every index a tag-query chain yields
/// designates an element node whose local name satisfies the tag pattern.
pub proof fn lemma_tag_query_sound<P: Pattern, U: Query>(
    t: Tree,
    q: QueryWrapper<TagQuery<P>, U>,
    root: int,
    recursive: bool,
    m: int,
)
    requires
        0 <= m < query_matches(t, q, root, recursive).len(),
    ensures
        ({
            let i = query_matches(t, q, root, recursive)[m];
            &&& t.in_subtree(root, i)
            &&& t.node(i).data is Element
            &&& tag_matches(q.inner_spec().pattern_spec(), t, i)
        }),
{
    let i = query_matches(t, q, root, recursive)[m];
    lemma_match_seq_contains(t, q, root, recursive, root, t.end_of(root), i);
    assert(query_matches(t, q, root, recursive).contains(i));
}

/// Soundness of the attribute predicate, list-aware rule included: every
/// index an attribute-query chain yields designates an element carrying an
/// attribute whose name satisfies the key pattern and whose value satisfies
/// the value pattern -- against the raw value as a whole, or against one of
/// its whitespace-separated tokens when the (element, attribute) pair is
/// list-aware.
pub proof fn lemma_attr_query_sound<K: Pattern, V: Pattern, U: Query>(
    t: Tree,
    q: QueryWrapper<AttrQuery<K, V>, U>,
    root: int,
    recursive: bool,
    m: int,
)
    requires
        0 <= m < query_matches(t, q, root, recursive).len(),
    ensures
        ({
            let i = query_matches(t, q, root, recursive)[m];
            &&& t.in_subtree(root, i)
            &&& t.node(i).data is Element
            &&& list_aware_match_spec(
                &q.inner_spec().key_spec(),
                &q.inner_spec().value_spec(),
                t.node(i).data,
            )
        }),
{
    let i = query_matches(t, q, root, recursive)[m];
    lemma_match_seq_contains(t, q, root, recursive, root, t.end_of(root), i);
    assert(query_matches(t, q, root, recursive).contains(i));
}

/// The recursion bound: with recursion off, every yielded index is the
/// query's root or one of its direct children -- nothing at depth two or
/// more below the root is yielded.
pub proof fn lemma_non_recursive_shallow<Q: Query>(t: Tree, q: Q, root: int, m: int)
    requires
        0 <= m < query_matches(t, q, root, false).len(),
    ensures
        ({
            let i = query_matches(t, q, root, false)[m];
            &&& t.in_subtree(root, i)
            &&& (i == root || t.parent_of(i) == Some(root as usize))
        }),
{
    let i = query_matches(t, q, root, false)[m];
    lemma_match_seq_contains(t, q, root, false, root, t.end_of(root), i);
    assert(query_matches(t, q, root, false).contains(i));
}

/// Idempotence: what a builder yields is a function of its tree, its root,
/// its query chain, its cap and its recursion flag alone, so constructing
/// and consuming the same query twice on the same tree yields identical
/// sequences.
pub proof fn lemma_same_query_same_results<T: Query, U: Query>(
    b1: QueryBuilder<T, U>,
    b2: QueryBuilder<T, U>,
)
    requires
        b1.tree_spec() == b2.tree_spec(),
        b1.root_spec() == b2.root_spec(),
        b1.queries_spec() == b2.queries_spec(),
        b1.limit_spec() == b2.limit_spec(),
        b1.recursive_spec() == b2.recursive_spec(),
    ensures
        b1.results_spec() == b2.results_spec(),
{
}

/// Construct a query to apply to an HTML tree: a chain of predicates over a
/// root handle, together with a result cap and a recursion flag.  Terminal
/// calls are [`QueryBuilder::find`] and [`QueryBuilder::find_all`].
///
/// The recursion flag defaults to true, the cap to none, and the chain to
/// the identity predicate, so a fresh builder yields every node of the
/// subtree.
pub struct QueryBuilder<T: Query = (), U: Query = ()> {
    tree: Rc<Tree>,
    root: usize,
    queries: QueryWrapper<T, U>,
    limit: Option<usize>,
    recursive: bool,
}

impl QueryBuilder<(), ()> {
    /// Starts a fresh query at the node that `handle` designates.
    pub(crate) fn new(handle: NodeHandle) -> (r: QueryBuilder<(), ()>)
        ensures
            r.tree_spec() == handle.tree_spec(),
            r.root_spec() == handle.idx_spec(),
            r.queries_spec().next_spec() is None,
            r.limit_spec() is None,
            r.recursive_spec() == true,
    {
        let (tree, root) = handle.raw();
        QueryBuilder {
            tree,
            root,
            queries: EmptyQueryWrapper::new(),
            limit: None,
            recursive: true,
        }
    }
}

impl<T: Query, U: Query> QueryBuilder<T, U> {
    /// Every builder points into a well-formed tree.
    #[verifier::type_invariant]
    pub closed spec fn inv(self) -> bool {
        &&& self.tree.wf()
        &&& self.root < self.tree.nodes@.len()
    }

    /// The tree the query will run over.
    pub closed spec fn tree_spec(self) -> Tree {
        *self.tree
    }

    /// The index of the node the query starts from.
    pub closed spec fn root_spec(self) -> int {
        self.root as int
    }

    /// The accumulated predicate chain.
    pub closed spec fn queries_spec(self) -> QueryWrapper<T, U> {
        self.queries
    }

    /// The result cap, if one was set.
    pub closed spec fn limit_spec(self) -> Option<usize> {
        self.limit
    }

    /// Whether the traversal descends past the root's direct children.
    pub closed spec fn recursive_spec(self) -> bool {
        self.recursive
    }

    /// The indices this builder's query yields, in document order and capped
    /// by the limit.
    pub open spec fn results_spec(self) -> Seq<int> {
        limited(
            query_matches(
                self.tree_spec(),
                self.queries_spec(),
                self.root_spec(),
                self.recursive_spec(),
            ),
            self.limit_spec(),
        )
    }

    /// Adds a limit to the number of results that can be returned.
    pub fn limit(self, limit: usize) -> (r: QueryBuilder<T, U>)
        ensures
            r.tree_spec() == self.tree_spec(),
            r.root_spec() == self.root_spec(),
            r.queries_spec() == self.queries_spec(),
            r.limit_spec() == Some(limit),
            r.recursive_spec() == self.recursive_spec(),
    {
        proof {
            use_type_invariant(&self);
        }
        let mut this = self;
        this.limit = Some(limit);
        this
    }

    /// Specifies whether the query should recurse through the whole subtree
    /// (the default) or stay with the queried node and its direct children.
    pub fn recursive(self, recursive: bool) -> (r: QueryBuilder<T, U>)
        ensures
            r.tree_spec() == self.tree_spec(),
            r.root_spec() == self.root_spec(),
            r.queries_spec() == self.queries_spec(),
            r.limit_spec() == self.limit_spec(),
            r.recursive_spec() == recursive,
    {
        proof {
            use_type_invariant(&self);
        }
        let mut this = self;
        this.recursive = recursive;
        this
    }

    /// Threads one more query onto the chain.
    fn push_query<Q: Query>(self, query: Q) -> (r: QueryBuilder<Q, QueryWrapper<T, U>>)
        ensures
            r.tree_spec() == self.tree_spec(),
            r.root_spec() == self.root_spec(),
            r.queries_spec().inner_spec() == query,
            r.queries_spec().next_spec() == Some(self.queries_spec()),
            r.limit_spec() == self.limit_spec(),
            r.recursive_spec() == self.recursive_spec(),
    {
        proof {
            use_type_invariant(&self);
        }
        let QueryBuilder { tree, root, queries, limit, recursive } = self;
        let queries = QueryWrapper::<Q, QueryWrapper<T, U>>::wrap(query, queries);
        QueryBuilder { tree, root, queries, limit, recursive }
    }

    /// Specifies a tag for which to search.
    pub fn tag<P: Pattern>(self, tag: P) -> (r: QueryBuilder<TagQuery<P>, QueryWrapper<T, U>>)
        ensures
            r.tree_spec() == self.tree_spec(),
            r.root_spec() == self.root_spec(),
            r.queries_spec().inner_spec().pattern_spec() == tag,
            r.queries_spec().next_spec() == Some(self.queries_spec()),
            r.limit_spec() == self.limit_spec(),
            r.recursive_spec() == self.recursive_spec(),
    {
        self.push_query(TagQuery::new(tag))
    }

    /// Searches for an element that has an attribute with the given name,
    /// whatever its value.
    pub fn attr_name<P: Pattern>(self, name: P) -> (r: QueryBuilder<
        AttrQuery<P, bool>,
        QueryWrapper<T, U>,
    >)
        ensures
            r.tree_spec() == self.tree_spec(),
            r.root_spec() == self.root_spec(),
            r.queries_spec().inner_spec().key_spec() == name,
            r.queries_spec().inner_spec().value_spec() == true,
            r.queries_spec().next_spec() == Some(self.queries_spec()),
            r.limit_spec() == self.limit_spec(),
            r.recursive_spec() == self.recursive_spec(),
    {
        self.push_query(AttrQuery::new(name, true))
    }

    /// Searches for an element with an attribute of any name whose value
    /// satisfies the given pattern.
    pub fn attr_value<P: Pattern>(self, value: P) -> (r: QueryBuilder<
        AttrQuery<bool, P>,
        QueryWrapper<T, U>,
    >)
        ensures
            r.tree_spec() == self.tree_spec(),
            r.root_spec() == self.root_spec(),
            r.queries_spec().inner_spec().key_spec() == true,
            r.queries_spec().inner_spec().value_spec() == value,
            r.queries_spec().next_spec() == Some(self.queries_spec()),
            r.limit_spec() == self.limit_spec(),
            r.recursive_spec() == self.recursive_spec(),
    {
        self.push_query(AttrQuery::new(true, value))
    }

    /// Specifies an attribute name/value pair for which to search.
    pub fn attr<P: Pattern, Q: Pattern>(self, name: P, value: Q) -> (r: QueryBuilder<
        AttrQuery<P, Q>,
        QueryWrapper<T, U>,
    >)
        ensures
            r.tree_spec() == self.tree_spec(),
            r.root_spec() == self.root_spec(),
            r.queries_spec().inner_spec().key_spec() == name,
            r.queries_spec().inner_spec().value_spec() == value,
            r.queries_spec().next_spec() == Some(self.queries_spec()),
            r.limit_spec() == self.limit_spec(),
            r.recursive_spec() == self.recursive_spec(),
    {
        self.push_query(AttrQuery::new(name, value))
    }

    /// Specifies a class name for which to search: shorthand for an
    /// attribute query on `class`, which is list-aware.
    pub fn class<P: Pattern>(self, value: P) -> (r: QueryBuilder<
        AttrQuery<&'static str, P>,
        QueryWrapper<T, U>,
    >)
        ensures
            r.tree_spec() == self.tree_spec(),
            r.root_spec() == self.root_spec(),
            r.queries_spec().inner_spec().key_spec()@ == "class"@,
            r.queries_spec().inner_spec().value_spec() == value,
            r.queries_spec().next_spec() == Some(self.queries_spec()),
            r.limit_spec() == self.limit_spec(),
            r.recursive_spec() == self.recursive_spec(),
    {
        self.attr("class", value)
    }

    /// Executes the query and returns an iterator of the results, lazily
    /// walking the subtree in document order.
    pub fn find_all(self) -> (r: NodeIterator<T, U>)
        ensures
            r.tree_spec() == self.tree_spec(),
            r.future_yields() == self.results_spec(),
    {
        proof {
            use_type_invariant(&self);
        }
        let QueryBuilder { tree, root, queries, limit, recursive } = self;
        NodeIterator { tree, root, queries, recursive, cur: root, remaining: limit }
    }

    /// Executes the query and returns the first match, or `None` when
    /// nothing in the subtree matches.
    pub fn find(self) -> (r: Option<NodeHandle>)
        ensures
            match r {
                Some(h) => {
                    &&& h.tree_spec() == self.tree_spec()
                    &&& query_matches(
                        self.tree_spec(),
                        self.queries_spec(),
                        self.root_spec(),
                        self.recursive_spec(),
                    ).len() > 0
                    &&& h.idx_spec() == query_matches(
                        self.tree_spec(),
                        self.queries_spec(),
                        self.root_spec(),
                        self.recursive_spec(),
                    )[0]
                },
                None => query_matches(
                    self.tree_spec(),
                    self.queries_spec(),
                    self.root_spec(),
                    self.recursive_spec(),
                ).len() == 0,
            },
    {
        let mut it = self.limit(1).find_all();
        it.next()
    }
}

/// The lazy traversal: yields, one `next` at a time, the nodes of the
/// subtree that satisfy the query chain, in document order, honoring the
/// recursion flag and the result cap.
pub struct NodeIterator<T: Query, U: Query> {
    tree: Rc<Tree>,
    root: usize,
    queries: QueryWrapper<T, U>,
    recursive: bool,
    cur: usize,
    remaining: Option<usize>,
}

impl<T: Query, U: Query> NodeIterator<T, U> {
    /// Every iterator points into a well-formed tree.
    #[verifier::type_invariant]
    pub closed spec fn inv(self) -> bool {
        &&& self.tree.wf()
        &&& self.root < self.tree.nodes@.len()
    }

    /// The tree the iterator walks.
    pub closed spec fn tree_spec(self) -> Tree {
        *self.tree
    }

    /// The indices of the nodes this iterator has yet to yield, in document
    /// order.
    pub closed spec fn future_yields(self) -> Seq<int> {
        limited(
            match_seq(
                *self.tree,
                self.queries,
                self.root as int,
                self.recursive,
                self.cur as int,
                self.tree.end_of(self.root as int),
            ),
            self.remaining,
        )
    }

    /// Advances the walk to the next matching node and returns a handle to
    /// it, or `None` once the traversal (or the result cap) is exhausted.
    #[verifier::loop_isolation(false)]
    pub fn next(&mut self) -> (r: Option<NodeHandle>)
        ensures
            final(self).tree_spec() == old(self).tree_spec(),
            match r {
                Some(h) => {
                    &&& old(self).future_yields().len() > 0
                    &&& h.tree_spec() == old(self).tree_spec()
                    &&& h.idx_spec() == old(self).future_yields()[0]
                    &&& final(self).future_yields() == old(self).future_yields().drop_first()
                },
                None => {
                    &&& old(self).future_yields().len() == 0
                    &&& final(self).future_yields().len() == 0
                },
            },
    {
        proof {
            use_type_invariant(&*self);
        }
        let ghost t = self.tree_spec();
        let ghost rootg = self.root as int;
        if let Some(n) = self.remaining {
            if n == 0 {
                proof {
                    assert(old(self).future_yields().len() == 0);
                }
                return None;
            }
        }
        let end = self.tree.nodes[self.root].end;
        let mut cur = self.cur;
        proof {
            assert(self.tree.end_of(rootg) == end);
            assert(t.wf_node(rootg));
            assert(end <= self.tree.nodes@.len());
        }
        while cur < end
            invariant
                self == old(self),
                self.cur <= cur,
                match_seq(t, self.queries, rootg, self.recursive, self.cur as int, end as int)
                    == match_seq(t, self.queries, rootg, self.recursive, cur as int, end as int),
            decreases end - cur,
        {
            let hit_allowed = self.recursive || cur == self.root || {
                match self.tree.nodes[cur].parent {
                    Some(p) => p == self.root,
                    None => false,
                }
            };
            let hit = hit_allowed && self.queries.matches(&self.tree, cur);
            if hit {
                let ghost m = match_seq(t, self.queries, rootg, self.recursive, cur as int,
                    end as int);
                proof {
                    assert(m[0] == cur as int);
                    assert(m.drop_first() =~= match_seq(
                        t,
                        self.queries,
                        rootg,
                        self.recursive,
                        cur + 1,
                        end as int,
                    ));
                }
                let h = NodeHandle::make(clone_tree_rc(&self.tree), cur);
                let ghost before = *self;
                self.cur = cur + 1;
                if let Some(n) = self.remaining {
                    self.remaining = Some(n - 1);
                    proof {
                        let mp = m.drop_first();
                        if m.len() > n {
                            assert(m.take(n as int).drop_first() =~= mp.take(n - 1));
                        }
                        assert(final(self).future_yields() == old(
                            self,
                        ).future_yields().drop_first());
                    }
                } else {
                    proof {
                        assert(final(self).future_yields() == old(
                            self,
                        ).future_yields().drop_first());
                    }
                }
                return Some(h);
            }
            proof {
                assert(match_seq(t, self.queries, rootg, self.recursive, cur as int, end as int)
                    == match_seq(t, self.queries, rootg, self.recursive, cur + 1, end as int));
            }
            cur = cur + 1;
        }
        self.cur = cur;
        proof {
            assert(match_seq(t, self.queries, rootg, self.recursive, cur as int, end as int).len()
                == 0);
        }
        None
    }
}

} // verus!
