//! Syntax-error diagnostics: one entry per error or missing-token node found
//! anywhere in the tree, each with that node's span, in pre-order.

use vstd::prelude::*;

use crate::syntax::{NodeModel, Span, SyntaxNode};
use crate::syntax::{lemma_node_models, node_models, NodeKind};

verus! {

/// Whether this node is reported as a syntax error: an error node, or a
/// token the grammar inserted as missing.
pub open spec fn is_error_node(n: NodeModel) -> bool {
    n.kind == NodeKind::ErrorNode || n.is_missing
}

/// The spans of all error and missing nodes of `n`'s subtree, in pre-order.
pub open spec fn error_spans(n: NodeModel) -> Seq<Span>
    decreases n,
{
    (if is_error_node(n) {
        seq![n.span]
    } else {
        Seq::empty()
    }) + error_list(n.children)
}

/// The error spans of a sequence of sibling subtrees, in source order.
pub open spec fn error_list(cs: Seq<NodeModel>) -> Seq<Span>
    decreases cs,
{
    if cs.len() == 0 {
        Seq::empty()
    } else {
        error_list(cs.drop_last()) + error_spans(cs.last())
    }
}

pub proof fn lemma_error_list_snoc(cs: Seq<NodeModel>, i: int)
    requires
        0 <= i < cs.len(),
    ensures
        error_list(cs.take(i + 1)) == error_list(cs.take(i)) + error_spans(cs[i]),
{
    assert(cs.take(i + 1).drop_last() =~= cs.take(i));
    assert(cs.take(i + 1).last() == cs[i]);
}

/// Appends the error spans of `n`'s subtree to `out`.
fn collect_errors_into(n: &SyntaxNode, out: &mut Vec<Span>)
    ensures
        final(out)@ == old(out)@ + error_spans(n.model()),
    decreases *n,
{
    proof {
        lemma_node_models(n.children@);
    }
    if matches!(n.kind, NodeKind::ErrorNode) || n.is_missing {
        out.push(n.span);
        proof {
            assert(out@ =~= old(out)@ + seq![n.model().span]);
        }
    } else {
        proof {
            assert(out@ =~= old(out)@ + Seq::<Span>::empty());
        }
    }
    let ghost base = out@;
    let n_children = n.children.len();
    for i in 0..n_children
        invariant
            n_children == n.children@.len(),
            node_models(n.children@).len() == n.children@.len(),
            forall|j: int|
                0 <= j < n.children@.len() ==> node_models(n.children@)[j] == #[trigger] n
                    .children@[j].model(),
            out@ == base + error_list(node_models(n.children@).take(i as int)),
        decreases n_children - i,
    {
        proof {
            assert(decreases_to!(n.children@ => n.children@[i as int]));
            assert(decreases_to!(*n => n.children@[i as int]));
        }
        collect_errors_into(&n.children[i], out);
        proof {
            lemma_error_list_snoc(node_models(n.children@), i as int);
            assert(base + error_list(node_models(n.children@).take(i as int)) + error_spans(
                n.children@[i as int].model(),
            ) =~= base + error_list(node_models(n.children@).take(i + 1)));
        }
    }
    proof {
        assert(node_models(n.children@).take(n.children@.len() as int) =~= node_models(
            n.children@,
        ));
        assert(base + error_list(node_models(n.children@)) =~= old(out)@ + error_spans(n.model()));
    }
}

/// The diagnostics of a parsed document: the span of every error or missing
/// node, in pre-order traversal order. The fixed message and severity are
/// attached at the protocol edge.
pub fn get_diagnostics(tree: &SyntaxNode) -> (r: Vec<Span>)
    ensures
        r@ == error_spans(tree.model()),
{
    let mut r: Vec<Span> = Vec::new();
    collect_errors_into(tree, &mut r);
    proof {
        assert(Seq::<Span>::empty() + error_spans(tree.model()) =~= error_spans(tree.model()));
    }
    r
}

/// A subtree with no error and no missing node anywhere.
pub open spec fn clean_node(n: NodeModel) -> bool
    decreases n,
{
    !is_error_node(n) && (forall|i: int|
        0 <= i < n.children.len() ==> clean_node(#[trigger] n.children[i]))
}

/// Whether `d` is a node of `n`'s subtree.
pub open spec fn in_tree(d: NodeModel, n: NodeModel) -> bool
    decreases n,
{
    d == n || (exists|i: int| 0 <= i < n.children.len() && in_tree(d, #[trigger] n.children[i]))
}

/// Law: a document with no error or missing node yields no diagnostics.
pub proof fn lemma_clean_no_diagnostics(n: NodeModel)
    requires
        clean_node(n),
    ensures
        error_spans(n) == Seq::<Span>::empty(),
    decreases n, 1int,
{
    lemma_clean_list(n.children);
    assert(error_spans(n) =~= Seq::<Span>::empty());
}

proof fn lemma_clean_list(cs: Seq<NodeModel>)
    requires
        forall|i: int| 0 <= i < cs.len() ==> clean_node(#[trigger] cs[i]),
    ensures
        error_list(cs) == Seq::<Span>::empty(),
    decreases cs, 0int,
{
    if cs.len() > 0 {
        lemma_clean_list(cs.drop_last());
        lemma_clean_no_diagnostics(cs.last());
        assert(error_list(cs) =~= Seq::<Span>::empty());
    }
}

/// Law: every error or missing node of the tree is reported: the
/// diagnostics contain a span equal to that node's span.
pub proof fn lemma_error_reported(d: NodeModel, n: NodeModel)
    requires
        in_tree(d, n),
        is_error_node(d),
    ensures
        error_spans(n).contains(d.span),
    decreases n, 1int,
{
    if d == n {
        assert(error_spans(n)[0] == d.span);
    } else {
        let i = choose|i: int| 0 <= i < n.children.len() && in_tree(d, #[trigger] n.children[i]);
        lemma_error_reported(d, n.children[i]);
        lemma_error_list_contains(n.children, i, d.span);
        let j = choose|j: int|
            0 <= j < error_list(n.children).len() && error_list(n.children)[j] == d.span;
        let pre = if is_error_node(n) {
            seq![n.span]
        } else {
            Seq::<Span>::empty()
        };
        assert(error_spans(n)[pre.len() + j] == d.span);
    }
}

proof fn lemma_error_list_contains(cs: Seq<NodeModel>, i: int, sp: Span)
    requires
        0 <= i < cs.len(),
        error_spans(cs[i]).contains(sp),
    ensures
        error_list(cs).contains(sp),
    decreases cs, 0int,
{
    let j = choose|j: int| 0 <= j < error_spans(cs[i]).len() && error_spans(cs[i])[j] == sp;
    if i == cs.len() - 1 {
        assert(error_list(cs)[error_list(cs.drop_last()).len() + j] == sp);
    } else {
        assert(cs.drop_last()[i] == cs[i]);
        lemma_error_list_contains(cs.drop_last(), i, sp);
        let k = choose|k: int|
            0 <= k < error_list(cs.drop_last()).len() && error_list(cs.drop_last())[k] == sp;
        assert(error_list(cs)[k] == sp);
    }
}

} // verus!
