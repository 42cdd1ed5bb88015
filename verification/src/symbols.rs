//! The symbol extractor.
//!
//! One pre-order walk of the syntax tree turns declarations into a
//! hierarchical symbol forest. Module-like and type declarations carry the
//! symbols of all their immediate children recursively; routine and variable
//! declarations are leaves. A declaration's name is the first plain
//! identifier among its immediate children; a declaration without one is
//! silently skipped. Every other node contributes no symbol, but its
//! children are still traversed, so nested declarations are not lost.

use vstd::prelude::*;

use crate::syntax::{
    node_models, span_within, wf_node, NodeKind, NodeModel, Span, SyntaxNode,
};
use crate::syntax::lemma_node_models;

verus! {

/// The kinds of symbol the analysis produces: a closed enumeration.
#[derive(Clone, Copy, PartialEq, Eq, Structural, Debug)]
pub enum SymKind {
    Module,
    Type,
    Function,
    Variable,
}

/// A named, positioned entity extracted from the tree.
///
/// `range` spans the whole declaring construct; `selection_range` spans just
/// the identifier token. Only `Module` and `Type` symbols carry children;
/// `detail` holds the raw declaration text of routine symbols.
#[derive(Debug, PartialEq, Eq)]
pub struct Symbol {
    pub name: String,
    pub kind: SymKind,
    pub range: Span,
    pub selection_range: Span,
    pub children: Vec<Symbol>,
    pub detail: Option<String>,
}

/// The mathematical model of a symbol.
#[verifier::ext_equal]
pub ghost struct SymModel {
    pub name: Seq<char>,
    pub kind: SymKind,
    pub range: Span,
    pub selection_range: Span,
    pub children: Seq<SymModel>,
    pub detail: Option<Seq<char>>,
}

impl Symbol {
    /// The model of this symbol.
    pub open spec fn model(&self) -> SymModel
        decreases self,
    {
        SymModel {
            name: self.name@,
            kind: self.kind,
            range: self.range,
            selection_range: self.selection_range,
            children: sym_models(self.children@),
            detail: match self.detail {
                Some(d) => Some(d@),
                None => None,
            },
        }
    }
}

/// The models of a sequence of symbols, element by element.
pub open spec fn sym_models(s: Seq<Symbol>) -> Seq<SymModel>
    decreases s,
{
    if s.len() == 0 {
        Seq::empty()
    } else {
        sym_models(s.drop_last()).push(s.last().model())
    }
}

pub proof fn lemma_sym_models(s: Seq<Symbol>)
    ensures
        sym_models(s).len() == s.len(),
        forall|i: int| 0 <= i < s.len() ==> sym_models(s)[i] == #[trigger] s[i].model(),
    decreases s.len(),
{
    if s.len() > 0 {
        lemma_sym_models(s.drop_last());
        assert forall|i: int| 0 <= i < s.len() implies sym_models(s)[i] == #[trigger] s[i].model()
        by {
            if i < s.len() - 1 {
                assert(s.drop_last()[i] == s[i]);
                assert(sym_models(s)[i] == sym_models(s.drop_last())[i]);
            } else {
                assert(sym_models(s)[i] == s.last().model());
            }
        }
    }
}

pub proof fn lemma_sym_models_push(s: Seq<Symbol>, x: Symbol)
    ensures
        sym_models(s.push(x)) == sym_models(s).push(x.model()),
{
    assert(s.push(x).drop_last() =~= s);
    assert(s.push(x).last() == x);
}

pub proof fn lemma_sym_models_add(a: Seq<Symbol>, b: Seq<Symbol>)
    ensures
        sym_models(a + b) == sym_models(a) + sym_models(b),
    decreases b.len(),
{
    if b.len() == 0 {
        assert(a + b =~= a);
        assert(sym_models(a) + sym_models(b) =~= sym_models(a));
    } else {
        lemma_sym_models_add(a, b.drop_last());
        assert((a + b).drop_last() =~= a + b.drop_last());
        assert((a + b).last() == b.last());
        assert(sym_models(a) + sym_models(b) =~= (sym_models(a) + sym_models(
            b.drop_last(),
        )).push(b.last().model()));
    }
}

/// Whether this node kind declares a symbol that carries children.
pub open spec fn is_container_kind(k: NodeKind) -> bool {
    k == NodeKind::Program || k == NodeKind::Unit || k == NodeKind::TypeDecl
}

/// Whether this node kind declares a leaf symbol.
pub open spec fn is_leaf_decl_kind(k: NodeKind) -> bool {
    k == NodeKind::ProcedureDecl || k == NodeKind::FunctionDecl || k == NodeKind::VarDecl
}

/// Whether this node kind declares a routine, whose raw declaration text
/// becomes the symbol's detail.
pub open spec fn is_routine_kind(k: NodeKind) -> bool {
    k == NodeKind::ProcedureDecl || k == NodeKind::FunctionDecl
}

/// The symbol kind a declaring node kind maps to.
pub open spec fn sym_kind_of(k: NodeKind) -> SymKind {
    if k == NodeKind::Program || k == NodeKind::Unit {
        SymKind::Module
    } else if k == NodeKind::TypeDecl {
        SymKind::Type
    } else if k == NodeKind::ProcedureDecl || k == NodeKind::FunctionDecl {
        SymKind::Function
    } else {
        SymKind::Variable
    }
}

/// The first immediate child that is a plain identifier token, scanning left
/// to right.
pub open spec fn find_ident(cs: Seq<NodeModel>) -> Option<NodeModel>
    decreases cs.len(),
{
    if cs.len() == 0 {
        None
    } else if cs[0].kind == NodeKind::Identifier {
        Some(cs[0])
    } else {
        find_ident(cs.drop_first())
    }
}

/// Whatever `find_ident` returns is an element of the sequence.
pub proof fn lemma_find_ident_mem(cs: Seq<NodeModel>)
    ensures
        match find_ident(cs) {
            Some(id) => exists|i: int| 0 <= i < cs.len() && id == cs[i],
            None => true,
        },
    decreases cs.len(),
{
    if cs.len() > 0 && cs[0].kind != NodeKind::Identifier {
        lemma_find_ident_mem(cs.drop_first());
        if find_ident(cs.drop_first()) is Some {
            let id = find_ident(cs.drop_first())->Some_0;
            let i = choose|i: int| 0 <= i < cs.drop_first().len() && id == cs.drop_first()[i];
            assert(id == cs[i + 1]);
        }
    }
}

proof fn lemma_find_ident_prefix(cs: Seq<NodeModel>, i: int)
    requires
        0 <= i <= cs.len(),
        forall|j: int| 0 <= j < i ==> (#[trigger] cs[j]).kind != NodeKind::Identifier,
    ensures
        find_ident(cs) == find_ident(cs.skip(i)),
    decreases i,
{
    if i == 0 {
        assert(cs.skip(0) =~= cs);
    } else {
        lemma_find_ident_prefix(cs, i - 1);
        assert(cs.skip(i - 1).len() > 0);
        assert(cs.skip(i - 1)[0] == cs[i - 1]);
        assert(find_ident(cs.skip(i - 1)) == find_ident(cs.skip(i - 1).drop_first()));
        assert(cs.skip(i - 1).drop_first() =~= cs.skip(i));
    }
}

/// Finds the first immediate child of `node` that is an identifier token.
pub fn find_identifier<'a>(node: &'a SyntaxNode) -> (r: Option<&'a SyntaxNode>)
    ensures
        match r {
            Some(id) => find_ident(node.model().children) == Some(id.model()),
            None => find_ident(node.model().children) is None,
        },
{
    proof {
        lemma_node_models(node.children@);
    }
    let n_children = node.children.len();
    for i in 0..n_children
        invariant
            n_children == node.children@.len(),
            node_models(node.children@).len() == node.children@.len(),
            forall|j: int|
                0 <= j < node.children@.len() ==> node_models(node.children@)[j] == #[trigger] node
                    .children@[j].model(),
            forall|j: int|
                0 <= j < i ==> (#[trigger] node_models(node.children@)[j]).kind
                    != NodeKind::Identifier,
    {
        let is_ident = matches!(node.children[i].kind, NodeKind::Identifier);
        proof {
            assert(node_models(node.children@)[i as int] == node.children@[i as int].model());
            assert(node.children@[i as int].model().kind == node.children@[i as int].kind);
        }
        if is_ident {
            proof {
                lemma_find_ident_prefix(node_models(node.children@), i as int);
            }
            return Some(&node.children[i]);
        }
    }
    proof {
        lemma_find_ident_prefix(node_models(node.children@), node.children@.len() as int);
    }
    None
}

/// The symbols a single node contributes, in pre-order: a declaring node
/// with an identifier child yields one symbol; a declaring node without one
/// yields nothing; any other node yields the symbols of its children.
pub open spec fn extract_node(n: NodeModel) -> Seq<SymModel>
    decreases n,
{
    if is_container_kind(n.kind) {
        match find_ident(n.children) {
            Some(id) => seq![
                SymModel {
                    name: id.text,
                    kind: sym_kind_of(n.kind),
                    range: n.span,
                    selection_range: id.span,
                    children: extract_list(n.children),
                    detail: None,
                },
            ],
            None => Seq::empty(),
        }
    } else if is_leaf_decl_kind(n.kind) {
        match find_ident(n.children) {
            Some(id) => seq![
                SymModel {
                    name: id.text,
                    kind: sym_kind_of(n.kind),
                    range: n.span,
                    selection_range: id.span,
                    children: Seq::empty(),
                    detail: if is_routine_kind(n.kind) {
                        Some(n.text)
                    } else {
                        None
                    },
                },
            ],
            None => Seq::empty(),
        }
    } else {
        extract_list(n.children)
    }
}

/// The symbols a sequence of sibling nodes contributes, in source order.
pub open spec fn extract_list(cs: Seq<NodeModel>) -> Seq<SymModel>
    decreases cs,
{
    if cs.len() == 0 {
        Seq::empty()
    } else {
        extract_list(cs.drop_last()) + extract_node(cs.last())
    }
}

pub proof fn lemma_extract_list_snoc(cs: Seq<NodeModel>, i: int)
    requires
        0 <= i < cs.len(),
    ensures
        extract_list(cs.take(i + 1)) == extract_list(cs.take(i)) + extract_node(cs[i]),
{
    assert(cs.take(i + 1).drop_last() =~= cs.take(i));
    assert(cs.take(i + 1).last() == cs[i]);
}

/// Extracts the symbols contributed by the immediate children of `node`.
pub fn collect_children_symbols(node: &SyntaxNode) -> (syms: Vec<Symbol>)
    ensures
        sym_models(syms@) == extract_list(node.model().children),
    decreases *node, 0int,
{
    proof {
        lemma_node_models(node.children@);
    }
    let mut syms: Vec<Symbol> = Vec::new();
    let n_children = node.children.len();
    for i in 0..n_children
        invariant
            n_children == node.children@.len(),
            node_models(node.children@).len() == node.children@.len(),
            forall|j: int|
                0 <= j < node.children@.len() ==> node_models(node.children@)[j] == #[trigger] node
                    .children@[j].model(),
            sym_models(syms@) == extract_list(node_models(node.children@).take(i as int)),
        decreases n_children - i,
    {
        proof {
            assert(decreases_to!(node.children@ => node.children@[i as int]));
            assert(decreases_to!(*node => node.children@[i as int]));
        }
        let mut sub = collect_symbols(&node.children[i]);
        proof {
            lemma_sym_models_add(syms@, sub@);
            lemma_extract_list_snoc(node_models(node.children@), i as int);
        }
        syms.append(&mut sub);
    }
    proof {
        assert(node_models(node.children@).take(node.children@.len() as int) =~= node_models(
            node.children@,
        ));
    }
    syms
}

/// Extracts the symbols contributed by `node` itself; see `extract_node`.
pub fn collect_symbols(node: &SyntaxNode) -> (syms: Vec<Symbol>)
    ensures
        sym_models(syms@) == extract_node(node.model()),
    decreases *node, 1int,
{
    let mut syms: Vec<Symbol> = Vec::new();
    match node.kind {
        NodeKind::Program | NodeKind::Unit | NodeKind::TypeDecl => {
            if let Some(name_node) = find_identifier(node) {
                let children = collect_children_symbols(node);
                let kind = if matches!(node.kind, NodeKind::TypeDecl) {
                    SymKind::Type
                } else {
                    SymKind::Module
                };
                let sym = Symbol {
                    name: name_node.text.clone(),
                    kind,
                    range: node.span,
                    selection_range: name_node.span,
                    children,
                    detail: None,
                };
                proof {
                    lemma_sym_models_push(syms@, sym);
                }
                syms.push(sym);
            }
        },
        NodeKind::ProcedureDecl | NodeKind::FunctionDecl | NodeKind::VarDecl => {
            if let Some(name_node) = find_identifier(node) {
                let detail = if matches!(node.kind, NodeKind::VarDecl) {
                    None
                } else {
                    Some(node.text.clone())
                };
                let kind = if matches!(node.kind, NodeKind::VarDecl) {
                    SymKind::Variable
                } else {
                    SymKind::Function
                };
                let sym = Symbol {
                    name: name_node.text.clone(),
                    kind,
                    range: node.span,
                    selection_range: name_node.span,
                    children: Vec::new(),
                    detail,
                };
                proof {
                    lemma_sym_models_push(syms@, sym);
                }
                syms.push(sym);
            }
        },
        _ => {
            return collect_children_symbols(node);
        },
    }
    syms
}

/// Deep copy of a symbol, preserving its model.
impl Symbol {
    pub fn duplicate(&self) -> (r: Symbol)
        ensures
            r.model() == self.model(),
        decreases *self,
    {
        proof {
            lemma_sym_models(self.children@);
        }
        let mut children: Vec<Symbol> = Vec::new();
        let n_children = self.children.len();
        for i in 0..n_children
            invariant
                n_children == self.children@.len(),
                sym_models(self.children@).len() == self.children@.len(),
                forall|j: int|
                    0 <= j < self.children@.len() ==> sym_models(self.children@)[j]
                        == #[trigger] self.children@[j].model(),
                children@.len() == i,
                forall|j: int|
                    0 <= j < i ==> (#[trigger] children@[j]).model() == self.children@[j].model(),
            decreases n_children - i,
        {
            proof {
                assert(decreases_to!(self.children@ => self.children@[i as int]));
                assert(decreases_to!(*self => self.children@[i as int]));
            }
            let c = self.children[i].duplicate();
            children.push(c);
        }
        let r = Symbol {
            name: self.name.clone(),
            kind: self.kind,
            range: self.range,
            selection_range: self.selection_range,
            children,
            detail: match &self.detail {
                Some(d) => Some(d.clone()),
                None => None,
            },
        };
        proof {
            lemma_sym_models(r.children@);
            assert forall|j: int| 0 <= j < r.children@.len() implies sym_models(r.children@)[j]
                == sym_models(self.children@)[j] by {
                assert(r.children@[j].model() == self.children@[j].model());
            }
            assert(sym_models(r.children@) =~= sym_models(self.children@));
            assert(r.model() =~= self.model());
        }
        r
    }
}

/// The flattening of one symbol: the symbol itself, then its children's
/// flattening, in pre-order.
pub open spec fn flatten_one(s: SymModel) -> Seq<SymModel>
    decreases s,
{
    seq![s] + flatten_list(s.children)
}

/// The flattening of a symbol forest, in pre-order.
pub open spec fn flatten_list(ss: Seq<SymModel>) -> Seq<SymModel>
    decreases ss,
{
    if ss.len() == 0 {
        Seq::empty()
    } else {
        flatten_list(ss.drop_last()) + flatten_one(ss.last())
    }
}

pub proof fn lemma_flatten_list_snoc(ss: Seq<SymModel>, i: int)
    requires
        0 <= i < ss.len(),
    ensures
        flatten_list(ss.take(i + 1)) == flatten_list(ss.take(i)) + flatten_one(ss[i]),
{
    assert(ss.take(i + 1).drop_last() =~= ss.take(i));
    assert(ss.take(i + 1).last() == ss[i]);
}

/// Appends the pre-order flattening of `s` to `out`.
fn flatten_symbol(s: &Symbol, out: &mut Vec<Symbol>)
    ensures
        sym_models(final(out)@) == sym_models(old(out)@) + flatten_one(s.model()),
    decreases *s,
{
    proof {
        lemma_sym_models(s.children@);
    }
    let dup = s.duplicate();
    proof {
        lemma_sym_models_push(out@, dup);
        assert(sym_models(out@).push(s.model()) =~= sym_models(out@) + seq![s.model()]);
    }
    out.push(dup);
    let ghost base = sym_models(out@);
    let n_children = s.children.len();
    for i in 0..n_children
        invariant
            n_children == s.children@.len(),
            sym_models(s.children@).len() == s.children@.len(),
            forall|j: int|
                0 <= j < s.children@.len() ==> sym_models(s.children@)[j] == #[trigger] s
                    .children@[j].model(),
            sym_models(out@) == base + flatten_list(sym_models(s.children@).take(i as int)),
        decreases n_children - i,
    {
        proof {
            assert(decreases_to!(s.children@ => s.children@[i as int]));
            assert(decreases_to!(*s => s.children@[i as int]));
        }
        flatten_symbol(&s.children[i], out);
        proof {
            lemma_flatten_list_snoc(sym_models(s.children@), i as int);
            assert(base + flatten_list(sym_models(s.children@).take(i as int)) + flatten_one(
                s.children@[i as int].model(),
            ) =~= base + flatten_list(sym_models(s.children@).take(i + 1)));
        }
    }
    proof {
        assert(sym_models(s.children@).take(s.children@.len() as int) =~= sym_models(s.children@));
        assert(base + flatten_list(sym_models(s.children@)) =~= sym_models(old(out)@) + flatten_one(
            s.model(),
        ));
    }
}

/// Flattens a symbol forest into a single sequence, every symbol at any
/// nesting depth, in pre-order traversal order.
pub fn flatten_symbols(syms: &Vec<Symbol>) -> (flat: Vec<Symbol>)
    ensures
        sym_models(flat@) == flatten_list(sym_models(syms@)),
{
    proof {
        lemma_sym_models(syms@);
    }
    let mut flat: Vec<Symbol> = Vec::new();
    let n_syms = syms.len();
    for i in 0..n_syms
        invariant
            n_syms == syms@.len(),
            sym_models(syms@).len() == syms@.len(),
            forall|j: int|
                0 <= j < syms@.len() ==> sym_models(syms@)[j] == #[trigger] syms@[j].model(),
            sym_models(flat@) == flatten_list(sym_models(syms@).take(i as int)),
    {
        flatten_symbol(&syms[i], &mut flat);
        proof {
            lemma_flatten_list_snoc(sym_models(syms@), i as int);
            assert(flatten_list(sym_models(syms@).take(i as int)) + flatten_one(
                syms@[i as int].model(),
            ) =~= flatten_list(sym_models(syms@).take(i + 1)));
        }
    }
    proof {
        assert(sym_models(syms@).take(syms@.len() as int) =~= sym_models(syms@));
    }
    flat
}

/// A well-formed symbol: its selection range lies within its full range, and
/// so on recursively for its children.
pub open spec fn sym_wf(s: SymModel) -> bool
    decreases s,
{
    span_within(s.selection_range, s.range) && (forall|i: int|
        0 <= i < s.children.len() ==> sym_wf(#[trigger] s.children[i]))
}

/// Every symbol of the sequence is well-formed.
pub open spec fn all_syms_wf(ss: Seq<SymModel>) -> bool {
    forall|i: int| 0 <= i < ss.len() ==> sym_wf(#[trigger] ss[i])
}

/// Law: a declaring node with an identifier child yields exactly one symbol,
/// whose name is the identifier's text, whose selection range is the
/// identifier's span, and whose range is the full span of the declaration.
pub proof fn lemma_extract_decl_spans(n: NodeModel)
    requires
        is_container_kind(n.kind) || is_leaf_decl_kind(n.kind),
        find_ident(n.children) is Some,
    ensures
        extract_node(n).len() == 1,
        extract_node(n)[0].name == find_ident(n.children)->Some_0.text,
        extract_node(n)[0].selection_range == find_ident(n.children)->Some_0.span,
        extract_node(n)[0].range == n.span,
        extract_node(n)[0].kind == sym_kind_of(n.kind),
{
}

/// Law: on a well-formed tree, every extracted symbol, at any depth, has its
/// selection range within its range.
pub proof fn lemma_extract_wf(n: NodeModel)
    requires
        wf_node(n),
    ensures
        all_syms_wf(extract_node(n)),
    decreases n, 1int,
{
    lemma_extract_list_wf(n.children);
    if (is_container_kind(n.kind) || is_leaf_decl_kind(n.kind)) && find_ident(n.children) is Some {
        let id = find_ident(n.children)->Some_0;
        lemma_find_ident_mem(n.children);
        let i = choose|i: int| 0 <= i < n.children.len() && id == n.children[i];
        assert(span_within(id.span, n.span));
        assert(sym_wf(extract_node(n)[0]));
    }
}

pub proof fn lemma_extract_list_wf(cs: Seq<NodeModel>)
    requires
        forall|i: int| 0 <= i < cs.len() ==> wf_node(#[trigger] cs[i]),
    ensures
        all_syms_wf(extract_list(cs)),
    decreases cs, 0int,
{
    if cs.len() > 0 {
        lemma_extract_list_wf(cs.drop_last());
        lemma_extract_wf(cs.last());
        assert forall|i: int| 0 <= i < extract_list(cs).len() implies sym_wf(
            #[trigger] extract_list(cs)[i],
        ) by {
            let pre = extract_list(cs.drop_last());
            if i < pre.len() {
                assert(extract_list(cs)[i] == pre[i]);
            } else {
                assert(extract_list(cs)[i] == extract_node(cs.last())[i - pre.len()]);
            }
        }
    }
}


} // verus!
