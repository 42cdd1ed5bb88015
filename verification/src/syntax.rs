//! The concrete-syntax-tree model that the analysis works on.
//!
//! The external grammar produces a tree of typed nodes, each with a source
//! span and its raw text. This module holds the library's own value type for
//! such trees, its mathematical model, and point resolution: finding the
//! smallest node that contains a source position, climbing past syntax-error
//! artifacts.

use vstd::prelude::*;

verus! {

/// A 0-based source position: line and column.
#[derive(Clone, Copy, PartialEq, Eq, Structural, Debug)]
pub struct Pos {
    pub line: u32,
    pub col: u32,
}

/// A source span, from `start` (inclusive) to `end` (exclusive).
#[derive(Clone, Copy, PartialEq, Eq, Structural, Debug)]
pub struct Span {
    pub start: Pos,
    pub end: Pos,
}

/// The node kinds the analysis distinguishes. Every other kind the grammar
/// may produce is `Other`: such a node contributes no symbol, but its
/// children are still traversed.
#[derive(Clone, Copy, PartialEq, Eq, Structural, Debug)]
pub enum NodeKind {
    Program,
    Unit,
    TypeDecl,
    ProcedureDecl,
    FunctionDecl,
    VarDecl,
    Identifier,
    ErrorNode,
    Other,
}

/// One node of the concrete syntax tree, as the analysis reads it: a kind,
/// the span it covers, its raw source text, the error flags the grammar
/// reports, and its children in source order.
pub struct SyntaxNode {
    pub kind: NodeKind,
    pub span: Span,
    pub text: String,
    pub is_missing: bool,
    pub is_extra: bool,
    pub children: Vec<SyntaxNode>,
}

/// The mathematical model of a syntax node: text as a character sequence,
/// children as a sequence of models.
#[verifier::ext_equal]
pub ghost struct NodeModel {
    pub kind: NodeKind,
    pub span: Span,
    pub text: Seq<char>,
    pub is_missing: bool,
    pub is_extra: bool,
    pub children: Seq<NodeModel>,
}

impl SyntaxNode {
    /// The model of this node.
    pub open spec fn model(&self) -> NodeModel
        decreases self,
    {
        NodeModel {
            kind: self.kind,
            span: self.span,
            text: self.text@,
            is_missing: self.is_missing,
            is_extra: self.is_extra,
            children: node_models(self.children@),
        }
    }
}

/// The models of a sequence of nodes, element by element.
pub open spec fn node_models(s: Seq<SyntaxNode>) -> Seq<NodeModel>
    decreases s,
{
    if s.len() == 0 {
        Seq::empty()
    } else {
        node_models(s.drop_last()).push(s.last().model())
    }
}

pub proof fn lemma_node_models(s: Seq<SyntaxNode>)
    ensures
        node_models(s).len() == s.len(),
        forall|i: int| 0 <= i < s.len() ==> node_models(s)[i] == #[trigger] s[i].model(),
    decreases s.len(),
{
    if s.len() > 0 {
        lemma_node_models(s.drop_last());
        assert forall|i: int| 0 <= i < s.len() implies node_models(s)[i] == #[trigger] s[i].model()
        by {
            if i < s.len() - 1 {
                assert(s.drop_last()[i] == s[i]);
                assert(node_models(s)[i] == node_models(s.drop_last())[i]);
            } else {
                assert(node_models(s)[i] == s.last().model());
            }
        }
    }
}

/// Position order: `a` is at or before `b` in the document.
pub open spec fn pos_le(a: Pos, b: Pos) -> bool {
    a.line < b.line || (a.line == b.line && a.col <= b.col)
}

/// Strict position order.
pub open spec fn pos_lt(a: Pos, b: Pos) -> bool {
    a.line < b.line || (a.line == b.line && a.col < b.col)
}

/// Whether span `s` contains position `p`: at or after the start, strictly
/// before the end.
pub open spec fn span_contains(s: Span, p: Pos) -> bool {
    pos_le(s.start, p) && pos_lt(p, s.end)
}

/// Whether span `inner` lies within span `outer`.
pub open spec fn span_within(inner: Span, outer: Span) -> bool {
    pos_le(outer.start, inner.start) && pos_le(inner.end, outer.end)
}

/// Executable position order; see `pos_le`.
pub fn pos_le_exec(a: Pos, b: Pos) -> (r: bool)
    ensures
        r == pos_le(a, b),
{
    a.line < b.line || (a.line == b.line && a.col <= b.col)
}

/// Executable strict position order; see `pos_lt`.
pub fn pos_lt_exec(a: Pos, b: Pos) -> (r: bool)
    ensures
        r == pos_lt(a, b),
{
    a.line < b.line || (a.line == b.line && a.col < b.col)
}

/// Executable span membership; see `span_contains`.
pub fn span_contains_exec(s: Span, p: Pos) -> (r: bool)
    ensures
        r == span_contains(s, p),
{
    pos_le_exec(s.start, p) && pos_lt_exec(p, s.end)
}

/// A well-formed tree: every child's span lies within its parent's span,
/// recursively. The external grammar guarantees this of the trees it
/// produces; the containment laws of extraction assume it.
pub open spec fn wf_node(n: NodeModel) -> bool
    decreases n,
{
    forall|i: int|
        0 <= i < n.children.len() ==> span_within((#[trigger] n.children[i]).span, n.span)
            && wf_node(n.children[i])
}

/// The first node of `s`, scanning left to right, whose span contains `p`.
pub open spec fn first_containing(s: Seq<NodeModel>, p: Pos) -> Option<NodeModel>
    decreases s.len(),
{
    if s.len() == 0 {
        None
    } else if span_contains(s[0].span, p) {
        Some(s[0])
    } else {
        first_containing(s.drop_first(), p)
    }
}

/// Point resolution: the smallest node of `n`'s subtree whose span contains
/// `p`, then climbed to the nearest ancestor that is neither an error node,
/// nor a missing token, nor an extra (comment-like) node, so that
/// syntax-error artifacts are not presented as resolvable tokens. Returns
/// the resolved node and its parent; the parent is `None` exactly when the
/// resolved node is `n` itself.
pub open spec fn resolve_at(n: NodeModel, p: Pos) -> (NodeModel, Option<NodeModel>)
    decreases n,
    via resolve_at_decreases
{
    match first_containing(n.children, p) {
        Some(c) => {
            let rp = resolve_at(c, p);
            if rp.0.kind == NodeKind::ErrorNode || rp.0.is_missing || rp.0.is_extra {
                (n, None)
            } else {
                match rp.1 {
                    Some(q) => (rp.0, Some(q)),
                    None => (rp.0, Some(n)),
                }
            }
        },
        None => (n, None),
    }
}

/// Whatever `first_containing` returns is an element of the sequence.
pub proof fn lemma_first_containing_mem(s: Seq<NodeModel>, p: Pos)
    ensures
        match first_containing(s, p) {
            Some(c) => exists|i: int| 0 <= i < s.len() && c == s[i],
            None => true,
        },
    decreases s.len(),
{
    if s.len() > 0 && !span_contains(s[0].span, p) {
        lemma_first_containing_mem(s.drop_first(), p);
        if first_containing(s.drop_first(), p) is Some {
            let c = first_containing(s.drop_first(), p)->Some_0;
            let i = choose|i: int| 0 <= i < s.drop_first().len() && c == s.drop_first()[i];
            assert(c == s[i + 1]);
        }
    }
}

#[via_fn]
proof fn resolve_at_decreases(n: NodeModel, p: Pos) {
    lemma_first_containing_mem(n.children, p);
    match first_containing(n.children, p) {
        Some(c) => {
            let i = choose|i: int| 0 <= i < n.children.len() && c == n.children[i];
            assert(decreases_to!(n => n.children[i]));
        },
        None => {},
    }
}

proof fn lemma_first_containing_prefix(s: Seq<NodeModel>, p: Pos, i: int)
    requires
        0 <= i <= s.len(),
        forall|j: int| 0 <= j < i ==> !span_contains((#[trigger] s[j]).span, p),
    ensures
        first_containing(s, p) == first_containing(s.skip(i), p),
    decreases i,
{
    if i == 0 {
        assert(s.skip(0) =~= s);
    } else {
        lemma_first_containing_prefix(s, p, i - 1);
        assert(s.skip(i - 1).len() > 0);
        assert(s.skip(i - 1)[0] == s[i - 1]);
        assert(first_containing(s.skip(i - 1), p) == first_containing(
            s.skip(i - 1).drop_first(),
            p,
        ));
        assert(s.skip(i - 1).drop_first() =~= s.skip(i));
    }
}

/// Finds the first child of `n` whose span contains `p`.
pub(crate) fn first_containing_child<'a>(n: &'a SyntaxNode, p: Pos) -> (r: Option<&'a SyntaxNode>)
    ensures
        match r {
            Some(c) => first_containing(n.model().children, p) == Some(c.model()) && exists|i: int|
                0 <= i < n.children@.len() && *c == n.children@[i],
            None => first_containing(n.model().children, p) is None,
        },
{
    proof {
        lemma_node_models(n.children@);
    }
    let n_children = n.children.len();
    for i in 0..n_children
        invariant
            n_children == n.children@.len(),
            node_models(n.children@).len() == n.children@.len(),
            forall|j: int|
                0 <= j < n.children@.len() ==> node_models(n.children@)[j] == #[trigger] n
                    .children@[j].model(),
            forall|j: int|
                0 <= j < i ==> !span_contains((#[trigger] node_models(n.children@)[j]).span, p),
    {
        let contains = span_contains_exec(n.children[i].span, p);
        proof {
            assert(node_models(n.children@)[i as int] == n.children@[i as int].model());
            assert(n.children@[i as int].model().span == n.children@[i as int].span);
        }
        if contains {
            proof {
                lemma_first_containing_prefix(node_models(n.children@), p, i as int);
            }
            return Some(&n.children[i]);
        }
    }
    proof {
        lemma_first_containing_prefix(node_models(n.children@), p, n.children@.len() as int);
    }
    None
}

/// Resolves position `p` within the subtree of `n`; see `resolve_at`.
pub fn locate<'a>(n: &'a SyntaxNode, p: Pos) -> (r: (&'a SyntaxNode, Option<&'a SyntaxNode>))
    ensures
        r.0.model() == resolve_at(n.model(), p).0,
        match r.1 {
            Some(q) => resolve_at(n.model(), p).1 == Some(q.model()),
            None => resolve_at(n.model(), p).1 is None,
        },
    decreases n,
{
    match first_containing_child(n, p) {
        Some(c) => {
            proof {
                let i = choose|i: int| 0 <= i < n.children@.len() && *c == n.children@[i];
                assert(decreases_to!(n.children@ => n.children@[i]));
                assert(decreases_to!(*n => *c));
            }
            let rp = locate(c, p);
            if matches!(rp.0.kind, NodeKind::ErrorNode) || rp.0.is_missing || rp.0.is_extra {
                (n, None)
            } else {
                match rp.1 {
                    Some(q) => (rp.0, Some(q)),
                    None => (rp.0, Some(n)),
                }
            }
        },
        None => (n, None),
    }
}

} // verus!
