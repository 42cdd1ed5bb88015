//! The per-document symbol analyzer: it holds the latest tree and the name
//! index derived from it, and answers the point-based queries (hover,
//! definition, references, completion) and the outline query.
//!
//! Every query needs a materialized tree; without one it returns no result,
//! never an error. Definition returns the first bucket entry for the
//! resolved identifier's name; references return every entry, in traversal
//! order. Both are acknowledged simplifications: lookups are by name alone,
//! with no scope resolution.

use vstd::prelude::*;
use vstd::string::StringExecFns;

use crate::index::{bucket_in, BucketModel, SymbolIndex};
use crate::index::bucket_models;
use crate::symbols::{
    collect_symbols, flatten_list, flatten_symbols, is_routine_kind, sym_models, SymKind, SymModel,
    Symbol,
};
use crate::symbols::extract_node;
use crate::syntax::{locate, resolve_at, span_contains, NodeKind, NodeModel, Pos, Span, SyntaxNode};
use crate::syntax::{first_containing, lemma_first_containing_mem, span_contains_exec};

verus! {

/// A hover payload: the rendered text and the range of the hovered token.
#[derive(Debug)]
pub struct HoverInfo {
    pub value: String,
    pub range: Span,
}

/// The mathematical model of a hover payload.
#[verifier::ext_equal]
pub ghost struct HoverModel {
    pub value: Seq<char>,
    pub range: Span,
}

impl HoverInfo {
    pub open spec fn model(&self) -> HoverModel {
        HoverModel { value: self.value@, range: self.range }
    }
}

pub open spec fn opt_hover_model(r: Option<HoverInfo>) -> Option<HoverModel> {
    match r {
        Some(h) => Some(h.model()),
        None => None,
    }
}

/// A location inside a document, protocol-style: the document's URI and a
/// range in it.
#[derive(Debug)]
pub struct DocLocation {
    pub uri: String,
    pub range: Span,
}

/// The mathematical model of a location.
#[verifier::ext_equal]
pub ghost struct LocModel {
    pub uri: Seq<char>,
    pub range: Span,
}

impl DocLocation {
    pub open spec fn model(&self) -> LocModel {
        LocModel { uri: self.uri@, range: self.range }
    }
}

pub open spec fn opt_loc_model(r: Option<DocLocation>) -> Option<LocModel> {
    match r {
        Some(l) => Some(l.model()),
        None => None,
    }
}

pub open spec fn loc_models(s: Seq<DocLocation>) -> Seq<LocModel> {
    s.map_values(|l: DocLocation| l.model())
}

/// The completion-item kinds the protocol mapping produces.
#[derive(Clone, Copy, PartialEq, Eq, Structural, Debug)]
pub enum CompletionKind {
    Module,
    Class,
    Function,
    Variable,
}

/// One completion candidate: the symbol's name as label, its kind mapped to
/// a completion kind, its detail (if any) as documentation hint.
#[derive(Debug)]
pub struct CompletionEntry {
    pub label: String,
    pub kind: CompletionKind,
    pub detail: Option<String>,
}

/// The mathematical model of a completion candidate.
#[verifier::ext_equal]
pub ghost struct CompModel {
    pub label: Seq<char>,
    pub kind: CompletionKind,
    pub detail: Option<Seq<char>>,
}

impl CompletionEntry {
    pub open spec fn model(&self) -> CompModel {
        CompModel {
            label: self.label@,
            kind: self.kind,
            detail: match self.detail {
                Some(d) => Some(d@),
                None => None,
            },
        }
    }
}

pub open spec fn comp_models(s: Seq<CompletionEntry>) -> Seq<CompModel> {
    s.map_values(|e: CompletionEntry| e.model())
}

/// The fixed mapping from symbol kind to completion kind.
pub open spec fn completion_kind_of(k: SymKind) -> CompletionKind {
    match k {
        SymKind::Module => CompletionKind::Module,
        SymKind::Type => CompletionKind::Class,
        SymKind::Function => CompletionKind::Function,
        SymKind::Variable => CompletionKind::Variable,
    }
}

/// The completion candidates offered for a sequence of symbols, in order.
pub open spec fn entries_of(syms: Seq<SymModel>) -> Seq<CompModel> {
    syms.map_values(
        |s: SymModel| CompModel {
            label: s.name,
            kind: completion_kind_of(s.kind),
            detail: s.detail,
        },
    )
}

/// Every candidate of the whole index, bucket by bucket in first-appearance
/// order, within each bucket in traversal order.
pub open spec fn all_entries(bs: Seq<BucketModel>) -> Seq<CompModel>
    decreases bs.len(),
{
    if bs.len() == 0 {
        Seq::empty()
    } else {
        all_entries(bs.drop_last()) + entries_of(bs.last().syms)
    }
}

/// The hover label a declaring parent kind selects.
pub open spec fn hover_label(k: NodeKind) -> Seq<char> {
    if is_routine_kind(k) {
        "function"@
    } else if k == NodeKind::TypeDecl {
        "type"@
    } else {
        "variable"@
    }
}

/// The rendered hover text: the label in a fenced code block, then the
/// declaration's full source text.
pub open spec fn hover_value(label: Seq<char>, content: Seq<char>) -> Seq<char> {
    "```pascal\n"@ + label + "\n```\n"@ + content
}

/// Whether this parent kind makes an identifier hoverable.
pub open spec fn is_hover_parent_kind(k: NodeKind) -> bool {
    is_routine_kind(k) || k == NodeKind::TypeDecl || k == NodeKind::VarDecl
}

/// The hover result over a tree: the position must resolve to an identifier
/// token whose parent is a routine, type or variable declaration; the
/// payload is the parent's full source text prefixed with a kind label, at
/// the identifier's range. Anything else yields no hover.
pub open spec fn hover_spec(t: NodeModel, pos: Pos) -> Option<HoverModel> {
    if !span_contains(t.span, pos) {
        None
    } else {
        let rp = resolve_at(t, pos);
        if rp.0.kind == NodeKind::Identifier {
            match rp.1 {
                Some(parent) => if is_hover_parent_kind(parent.kind) {
                    Some(
                        HoverModel {
                            value: hover_value(hover_label(parent.kind), parent.text),
                            range: rp.0.span,
                        },
                    )
                } else {
                    None
                },
                None => None,
            }
        } else {
            None
        }
    }
}

/// The innermost type declaration, with an identifier child, among the
/// proper ancestors of the node the position resolves to: the member-scope
/// a dot-triggered completion uses.
pub open spec fn scope_name(n: NodeModel, pos: Pos) -> Option<Seq<char>>
    decreases n,
    via scope_name_decreases
{
    match first_containing(n.children, pos) {
        Some(c) => match scope_name(c, pos) {
            Some(s) => Some(s),
            None => if n.kind == NodeKind::TypeDecl && crate::symbols::find_ident(n.children)
                is Some {
                Some(crate::symbols::find_ident(n.children)->Some_0.text)
            } else {
                None
            },
        },
        None => None,
    }
}

#[via_fn]
proof fn scope_name_decreases(n: NodeModel, pos: Pos) {
    lemma_first_containing_mem(n.children, pos);
    match first_containing(n.children, pos) {
        Some(c) => {
            let i = choose|i: int| 0 <= i < n.children.len() && c == n.children[i];
            assert(decreases_to!(n => n.children[i]));
        },
        None => {},
    }
}

/// The per-document analyzer: the latest tree, the index derived from it,
/// and the document's URI.
pub struct SymbolAnalyzer {
    pub tree: Option<SyntaxNode>,
    pub index: SymbolIndex,
    pub document_uri: Option<String>,
}

/// The flattened symbol sequence of a tree: every extracted symbol at any
/// nesting depth, in pre-order traversal order.
pub open spec fn flat_symbols(t: NodeModel) -> Seq<SymModel> {
    flatten_list(extract_node(t))
}

/// The definition result: the resolved identifier's name is looked up in
/// the index, and the location of the first bucket entry — the first
/// declaration encountered in the pre-order walk — is returned, under the
/// document's URI.
pub open spec fn def_result(a: SymbolAnalyzer, pos: Pos) -> Option<LocModel> {
    match a.tree {
        Some(t) => if span_contains(t.model().span, pos) {
            let rp = resolve_at(t.model(), pos);
            if rp.0.kind == NodeKind::Identifier && bucket_in(a.index.model(), rp.0.text).len()
                > 0 {
                match a.document_uri {
                    Some(u) => Some(
                        LocModel { uri: u@, range: bucket_in(a.index.model(), rp.0.text)[0].range },
                    ),
                    None => None,
                }
            } else {
                None
            }
        } else {
            None
        },
        None => None,
    }
}

/// The references result: the locations of every bucket entry for the
/// resolved identifier's name, in traversal order.
pub open spec fn refs_result(a: SymbolAnalyzer, pos: Pos) -> Option<Seq<LocModel>> {
    match a.tree {
        Some(t) => if span_contains(t.model().span, pos) {
            let rp = resolve_at(t.model(), pos);
            if rp.0.kind == NodeKind::Identifier && bucket_in(a.index.model(), rp.0.text).len()
                > 0 {
                match a.document_uri {
                    Some(u) => Some(
                        bucket_in(a.index.model(), rp.0.text).map_values(
                            |s: SymModel| LocModel { uri: u@, range: s.range },
                        ),
                    ),
                    None => None,
                }
            } else {
                None
            }
        } else {
            None
        },
        None => None,
    }
}

/// The completion result. With a dot trigger, the candidates are the index
/// bucket of the enclosing type declaration's name; with any other trigger,
/// none; with no trigger, every symbol of the entire index, unfiltered.
pub open spec fn completion_result(a: SymbolAnalyzer, pos: Pos, trigger: Option<Seq<char>>) -> Option<
    Seq<CompModel>,
> {
    match a.tree {
        Some(t) => if span_contains(t.model().span, pos) {
            match trigger {
                Some(tr) => if tr == "."@ {
                    match scope_name(t.model(), pos) {
                        Some(name) => Some(entries_of(bucket_in(a.index.model(), name))),
                        None => Some(Seq::empty()),
                    }
                } else {
                    Some(Seq::empty())
                },
                None => Some(all_entries(a.index.model())),
            }
        } else {
            None
        },
        None => None,
    }
}

impl SymbolAnalyzer {
    /// A fresh analyzer with no document content.
    pub fn new() -> (r: SymbolAnalyzer)
        ensures
            r.tree is None,
            r.index.model() == Seq::<BucketModel>::empty(),
            r.document_uri is None,
    {
        SymbolAnalyzer { tree: None, index: SymbolIndex::new(), document_uri: None }
    }

    /// Replaces the document content wholesale: the new tree and URI are
    /// stored and the index is rebuilt from the tree's flattened symbols.
    /// For every name, the rebuilt index's bucket holds exactly the
    /// extracted symbols carrying that name, in pre-order traversal order.
    pub fn set_content(&mut self, tree: SyntaxNode, uri: String)
        ensures
            final(self).tree == Some(tree),
            final(self).document_uri == Some(uri),
            final(self).index.model() == crate::index::index_of(flat_symbols(tree.model())),
            forall|name: Seq<char>|
                #[trigger] bucket_in(final(self).index.model(), name) == crate::index::with_name(
                    flat_symbols(tree.model()),
                    name,
                ),
    {
        let forest = collect_symbols(&tree);
        let flat = flatten_symbols(&forest);
        self.index = SymbolIndex::from_symbols(flat);
        self.tree = Some(tree);
        self.document_uri = Some(uri);
    }

    /// The hierarchical outline: the symbol forest extracted from the
    /// current tree, or nothing without a tree.
    pub fn get_document_symbols(&self) -> (r: Option<Vec<Symbol>>)
        ensures
            match r {
                Some(syms) => self.tree is Some && sym_models(syms@) == extract_node(
                    self.tree->Some_0.model(),
                ),
                None => self.tree is None,
            },
    {
        match &self.tree {
            Some(t) => Some(collect_symbols(t)),
            None => None,
        }
    }

    /// The hover query; see `hover_spec`.
    pub fn get_hover_info(&self, position: Pos) -> (r: Option<HoverInfo>)
        ensures
            opt_hover_model(r) == match self.tree {
                Some(t) => hover_spec(t.model(), position),
                None => None::<HoverModel>,
            },
    {
        let tree = match &self.tree {
            Some(t) => t,
            None => {
                return None;
            },
        };
        if !span_contains_exec(tree.span, position) {
            return None;
        }
        let (node, parent_opt) = locate(tree, position);
        if !matches!(node.kind, NodeKind::Identifier) {
            return None;
        }
        let parent = match parent_opt {
            Some(p) => p,
            None => {
                return None;
            },
        };
        let label: &str = match parent.kind {
            NodeKind::ProcedureDecl | NodeKind::FunctionDecl => "function",
            NodeKind::TypeDecl => "type",
            NodeKind::VarDecl => "variable",
            _ => {
                return None;
            },
        };
        let mut value = String::new();
        value.append("```pascal\n");
        value.append(label);
        value.append("\n```\n");
        value.append(parent.text.as_str());
        Some(HoverInfo { value, range: node.span })
    }

    /// The go-to-definition query; see `def_result`.
    pub fn find_definition(&self, position: Pos) -> (r: Option<DocLocation>)
        ensures
            opt_loc_model(r) == def_result(*self, position),
    {
        let tree = match &self.tree {
            Some(t) => t,
            None => {
                return None;
            },
        };
        if !span_contains_exec(tree.span, position) {
            return None;
        }
        let (node, _) = locate(tree, position);
        if !matches!(node.kind, NodeKind::Identifier) {
            return None;
        }
        match self.index.get(&node.text) {
            Some(bucket) => {
                proof {
                    crate::symbols::lemma_sym_models(bucket.syms@);
                }
                if bucket.syms.len() > 0 {
                    proof {
                        assert(bucket.model().syms == bucket_in(
                            self.index.model(),
                            node.model().text,
                        ));
                        assert(sym_models(bucket.syms@)[0] == bucket.syms@[0].model());
                        assert(bucket_in(self.index.model(), node.model().text)[0].range == bucket
                            .syms@[0].range);
                    }
                    match &self.document_uri {
                        Some(u) => Some(
                            DocLocation { uri: u.clone(), range: bucket.syms[0].range },
                        ),
                        None => None,
                    }
                } else {
                    None
                }
            },
            None => None,
        }
    }

    /// The find-references query; see `refs_result`.
    pub fn find_references(&self, position: Pos) -> (r: Option<Vec<DocLocation>>)
        ensures
            match r {
                Some(ls) => refs_result(*self, position) == Some(loc_models(ls@)),
                None => refs_result(*self, position) is None,
            },
    {
        let tree = match &self.tree {
            Some(t) => t,
            None => {
                return None;
            },
        };
        if !span_contains_exec(tree.span, position) {
            return None;
        }
        let (node, _) = locate(tree, position);
        if !matches!(node.kind, NodeKind::Identifier) {
            return None;
        }
        let ghost name = node.model().text;
        match self.index.get(&node.text) {
            Some(bucket) => {
                proof {
                    crate::symbols::lemma_sym_models(bucket.syms@);
                }
                if bucket.syms.len() == 0 {
                    return None;
                }
                let uri = match &self.document_uri {
                    Some(u) => u.clone(),
                    None => {
                        return None;
                    },
                };
                let mut locations: Vec<DocLocation> = Vec::new();
                let n_syms = bucket.syms.len();
                for i in 0..n_syms
                    invariant
                        n_syms == bucket.syms@.len(),
                        uri@ == self.document_uri->Some_0@,
                        sym_models(bucket.syms@).len() == bucket.syms@.len(),
                        forall|j: int|
                            0 <= j < bucket.syms@.len() ==> sym_models(bucket.syms@)[j]
                                == #[trigger] bucket.syms@[j].model(),
                        locations@.len() == i,
                        forall|j: int|
                            0 <= j < i ==> (#[trigger] locations@[j]).model() == (LocModel {
                                uri: self.document_uri->Some_0@,
                                range: bucket.syms@[j].model().range,
                            }),
                {
                    locations.push(DocLocation { uri: uri.clone(), range: bucket.syms[i].range });
                }
                proof {
                    assert(loc_models(locations@) =~= sym_models(bucket.syms@).map_values(
                        |s: SymModel| LocModel {
                            uri: self.document_uri->Some_0@,
                            range: s.range,
                        },
                    ));
                }
                Some(locations)
            },
            None => None,
        }
    }

    /// The completion query; see `completion_result`.
    pub fn get_completion_items(&self, position: Pos, trigger_char: Option<String>) -> (r: Option<
        Vec<CompletionEntry>,
    >)
        ensures
            match r {
                Some(items) => completion_result(
                    *self,
                    position,
                    match trigger_char {
                        Some(tc) => Some(tc@),
                        None => None,
                    },
                ) == Some(comp_models(items@)),
                None => completion_result(
                    *self,
                    position,
                    match trigger_char {
                        Some(tc) => Some(tc@),
                        None => None,
                    },
                ) is None,
            },
    {
        let tree = match &self.tree {
            Some(t) => t,
            None => {
                return None;
            },
        };
        if !span_contains_exec(tree.span, position) {
            return None;
        }
        match &trigger_char {
            Some(tc) => {
                let dot = String::from_str(".");
                if *tc == dot {
                    match completion_scope(tree, position) {
                        Some(scope) => {
                            let items = match self.index.get(&scope) {
                                Some(bucket) => scope_members(&bucket.syms),
                                None => {
                                    let empty_items: Vec<CompletionEntry> = Vec::new();
                                    proof {
                                        assert(comp_models(empty_items@) =~= entries_of(
                                            Seq::<SymModel>::empty(),
                                        ));
                                    }
                                    empty_items
                                },
                            };
                            Some(items)
                        },
                        None => {
                            let items: Vec<CompletionEntry> = Vec::new();
                            proof {
                                assert(comp_models(items@) =~= Seq::<CompModel>::empty());
                            }
                            Some(items)
                        },
                    }
                } else {
                    let items: Vec<CompletionEntry> = Vec::new();
                    proof {
                        assert(comp_models(items@) =~= Seq::<CompModel>::empty());
                    }
                    Some(items)
                }
            },
            None => Some(self.visible_symbols()),
        }
    }

    /// Every symbol of the index as a completion candidate, bucket by
    /// bucket.
    fn visible_symbols(&self) -> (items: Vec<CompletionEntry>)
        ensures
            comp_models(items@) == all_entries(self.index.model()),
    {
        let mut items: Vec<CompletionEntry> = Vec::new();
        let n_buckets = self.index.buckets.len();
        proof {
            assert(comp_models(items@) =~= all_entries(
                bucket_models(self.index.buckets@).take(0),
            ));
        }
        for i in 0..n_buckets
            invariant
                n_buckets == self.index.buckets@.len(),
                comp_models(items@) == all_entries(
                    bucket_models(self.index.buckets@).take(i as int),
                ),
        {
            let mut entries = scope_members(&self.index.buckets[i].syms);
            proof {
                let bs = bucket_models(self.index.buckets@);
                assert(bs[i as int] == self.index.buckets@[i as int].model());
                assert(bs.take(i + 1).drop_last() =~= bs.take(i as int));
                assert(bs.take(i + 1).last() == bs[i as int]);
                assert(comp_models(items@ + entries@) =~= comp_models(items@) + comp_models(
                    entries@,
                ));
            }
            items.append(&mut entries);
        }
        proof {
            assert(bucket_models(self.index.buckets@).take(n_buckets as int) =~= bucket_models(
                self.index.buckets@,
            ));
        }
        items
    }
}

/// The completion candidates for one bucket's symbols, in order.
fn scope_members(syms: &Vec<Symbol>) -> (items: Vec<CompletionEntry>)
    ensures
        comp_models(items@) == entries_of(sym_models(syms@)),
{
    proof {
        crate::symbols::lemma_sym_models(syms@);
    }
    let mut items: Vec<CompletionEntry> = Vec::new();
    let n_syms = syms.len();
    for i in 0..n_syms
        invariant
            n_syms == syms@.len(),
            sym_models(syms@).len() == syms@.len(),
            forall|j: int|
                0 <= j < syms@.len() ==> sym_models(syms@)[j] == #[trigger] syms@[j].model(),
            items@.len() == i,
            forall|j: int|
                0 <= j < i ==> (#[trigger] items@[j]).model() == (CompModel {
                    label: syms@[j].model().name,
                    kind: completion_kind_of(syms@[j].model().kind),
                    detail: syms@[j].model().detail,
                }),
    {
        let s = &syms[i];
        let kind = match s.kind {
            SymKind::Module => CompletionKind::Module,
            SymKind::Type => CompletionKind::Class,
            SymKind::Function => CompletionKind::Function,
            SymKind::Variable => CompletionKind::Variable,
        };
        let detail = match &s.detail {
            Some(d) => Some(d.clone()),
            None => None,
        };
        items.push(CompletionEntry { label: s.name.clone(), kind, detail });
    }
    proof {
        assert(comp_models(items@) =~= entries_of(sym_models(syms@)));
    }
    items
}

/// Finds the member-completion scope; see `scope_name`.
fn completion_scope(n: &SyntaxNode, pos: Pos) -> (r: Option<String>)
    ensures
        match r {
            Some(name) => scope_name(n.model(), pos) == Some(name@),
            None => scope_name(n.model(), pos) is None,
        },
    decreases *n,
{
    match crate::syntax::first_containing_child(n, pos) {
        Some(c) => {
            proof {
                let i = choose|i: int| 0 <= i < n.children@.len() && *c == n.children@[i];
                assert(decreases_to!(n.children@ => n.children@[i]));
                assert(decreases_to!(*n => *c));
            }
            match completion_scope(c, pos) {
                Some(s) => Some(s),
                None => {
                    if matches!(n.kind, NodeKind::TypeDecl) {
                        match crate::symbols::find_identifier(n) {
                            Some(name_node) => Some(name_node.text.clone()),
                            None => None,
                        }
                    } else {
                        None
                    }
                },
            }
        },
        None => None,
    }
}


/// Law: extraction is idempotent. Any two extraction results over the same
/// tree are structurally identical, and so are the indexes built from
/// their flattened symbols: the result is a function of the tree alone.
pub proof fn lemma_extract_idempotent(t: NodeModel, run1: Seq<SymModel>, run2: Seq<SymModel>)
    requires
        run1 == extract_node(t),
        run2 == extract_node(t),
    ensures
        run1 == run2,
        crate::index::index_of(flatten_list(run1)) == crate::index::index_of(flatten_list(run2)),
{
}

/// Law: references and definition agree. Whenever the references query has
/// a result, the definition query has one; the definition is the first of
/// the reference locations; and for a name with exactly one declaration
/// both queries return that single location.
pub proof fn lemma_definition_references_agree(a: SymbolAnalyzer, pos: Pos)
    ensures
        match refs_result(a, pos) {
            Some(ls) => ls.len() > 0 && def_result(a, pos) == Some(ls[0]) && (ls.len() == 1
                ==> def_result(a, pos) == Some(ls[0]) && ls =~= seq![ls[0]]),
            None => def_result(a, pos) is None,
        },
{
}

/// Law: a hover result exists only for an identifier token whose parent is
/// a routine, type or variable declaration; hovering anything else, in
/// particular an identifier under any other parent kind, yields no result.
pub proof fn lemma_hover_needs_decl_parent(t: NodeModel, pos: Pos)
    ensures
        hover_spec(t, pos) is Some ==> span_contains(t.span, pos) && resolve_at(t, pos).0.kind
            == NodeKind::Identifier && match resolve_at(t, pos).1 {
            Some(parent) => is_hover_parent_kind(parent.kind),
            None => false,
        },
{
}

} // verus!
