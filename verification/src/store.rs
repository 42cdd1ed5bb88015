//! The document session store: one session per open document URI, holding
//! the latest text, the latest tree (if the parse produced one), and the
//! symbol index derived from that tree.
//!
//! Sessions are created on open, replaced wholesale on change — every
//! change supplies the full new text and its freshly parsed tree — and
//! deleted on close. A query for a URI with no session observes no result.

use vstd::prelude::*;

use crate::analyzer::{
    all_entries, entries_of, hover_spec, opt_hover_model, opt_loc_model, scope_name, CompModel,
    CompletionEntry, DocLocation, HoverInfo, HoverModel, LocModel, SymbolAnalyzer, comp_models,
    loc_models,
};
use crate::analyzer::flat_symbols;
use crate::index::index_of;
use crate::index::{lemma_index_buckets, with_name};
use crate::symbols::{extract_node, sym_models, SymModel, Symbol};
use crate::syntax::{resolve_at, span_contains, NodeKind, NodeModel, Pos, SyntaxNode};

verus! {

/// One open document: its URI, its current full text, and the analyzer
/// state (tree and index) derived from that text.
pub struct DocumentSession {
    pub uri: String,
    pub text: String,
    pub analyzer: SymbolAnalyzer,
}

/// The mathematical model of a session: the URI, the text, and the tree the
/// text parsed to, if any. The index is determined by the tree.
#[verifier::ext_equal]
pub ghost struct SessionModel {
    pub uri: Seq<char>,
    pub text: Seq<char>,
    pub tree: Option<NodeModel>,
}

impl DocumentSession {
    pub open spec fn model(&self) -> SessionModel {
        SessionModel {
            uri: self.uri@,
            text: self.text@,
            tree: match self.analyzer.tree {
                Some(t) => Some(t.model()),
                None => None,
            },
        }
    }

    /// A session is well formed when its analyzer carries this session's
    /// URI and an index that is exactly the one derived from its tree.
    pub open spec fn wf(&self) -> bool {
        &&& self.analyzer.document_uri is Some
        &&& self.analyzer.document_uri->Some_0@ == self.uri@
        &&& match self.analyzer.tree {
            Some(t) => self.analyzer.index.model() == crate::index::index_of(
                flat_symbols(t.model()),
            ),
            None => self.analyzer.index.model() == Seq::<crate::index::BucketModel>::empty(),
        }
    }
}

/// The first session for `uri`, if any.
pub open spec fn lookup(ss: Seq<DocumentSession>, uri: Seq<char>) -> Option<SessionModel>
    decreases ss.len(),
{
    if ss.len() == 0 {
        None
    } else if ss[0].uri@ == uri {
        Some(ss[0].model())
    } else {
        lookup(ss.drop_first(), uri)
    }
}

/// The definition result a session owes: over the symbols extracted from
/// its tree, the location of the first pre-order declaration whose name is
/// the resolved identifier's text.
pub open spec fn session_definition(sm: SessionModel, pos: Pos) -> Option<LocModel> {
    match sm.tree {
        Some(t) => if span_contains(t.span, pos) {
            let rp = resolve_at(t, pos);
            if rp.0.kind == NodeKind::Identifier && with_name(flat_symbols(t), rp.0.text).len()
                > 0 {
                Some(
                    LocModel { uri: sm.uri, range: with_name(flat_symbols(t), rp.0.text)[0].range },
                )
            } else {
                None
            }
        } else {
            None
        },
        None => None,
    }
}

/// The references result a session owes: the locations of every extracted
/// symbol sharing the resolved identifier's name, in pre-order.
pub open spec fn session_references(sm: SessionModel, pos: Pos) -> Option<Seq<LocModel>> {
    match sm.tree {
        Some(t) => if span_contains(t.span, pos) {
            let rp = resolve_at(t, pos);
            if rp.0.kind == NodeKind::Identifier && with_name(flat_symbols(t), rp.0.text).len()
                > 0 {
                Some(
                    with_name(flat_symbols(t), rp.0.text).map_values(
                        |s: SymModel| LocModel { uri: sm.uri, range: s.range },
                    ),
                )
            } else {
                None
            }
        } else {
            None
        },
        None => None,
    }
}

/// The completion result a session owes. With a dot trigger, the
/// candidates are every extracted symbol named like the enclosing type
/// declaration; with any other trigger, none; with no trigger, every
/// symbol of the index derived from the tree.
pub open spec fn session_completion(
    sm: SessionModel,
    pos: Pos,
    trigger: Option<Seq<char>>,
) -> Option<Seq<CompModel>> {
    match sm.tree {
        Some(t) => if span_contains(t.span, pos) {
            match trigger {
                Some(tr) => if tr == "."@ {
                    match scope_name(t, pos) {
                        Some(name) => Some(entries_of(with_name(flat_symbols(t), name))),
                        None => Some(Seq::empty()),
                    }
                } else {
                    Some(Seq::empty())
                },
                None => Some(all_entries(index_of(flat_symbols(t)))),
            }
        } else {
            None
        },
        None => None,
    }
}

/// The store of all open documents, keyed by URI.
pub struct DocumentStore {
    pub sessions: Vec<DocumentSession>,
}

impl DocumentStore {
    /// Every session is well formed, and no URI appears twice.
    pub open spec fn wf(&self) -> bool {
        &&& forall|i: int| 0 <= i < self.sessions@.len() ==> (#[trigger] self.sessions@[i]).wf()
        &&& forall|i: int, j: int|
            0 <= i < j < self.sessions@.len() ==> (#[trigger] self.sessions@[i]).uri@ != (
            #[trigger] self.sessions@[j]).uri@
    }

    /// An empty store.
    pub fn new() -> (r: DocumentStore)
        ensures
            r.wf(),
            forall|u: Seq<char>| #[trigger] lookup(r.sessions@, u) is None,
    {
        DocumentStore { sessions: Vec::new() }
    }

    /// Opens a document, or replaces it if it is already open: the session
    /// for `uri` holds the given text and tree, wholesale; every other
    /// session is untouched.
    pub fn open(&mut self, uri: String, text: String, tree: Option<SyntaxNode>)
        requires
            old(self).wf(),
        ensures
            final(self).wf(),
            lookup(final(self).sessions@, uri@) == Some(
                SessionModel {
                    uri: uri@,
                    text: text@,
                    tree: match tree {
                        Some(t) => Some(t.model()),
                        None => None,
                    },
                },
            ),
            forall|u: Seq<char>|
                u != uri@ ==> #[trigger] lookup(final(self).sessions@, u) == lookup(
                    old(self).sessions@,
                    u,
                ),
    {
        self.close(&uri);
        let mut analyzer = SymbolAnalyzer::new();
        match tree {
            Some(t) => {
                analyzer.set_content(t, uri.clone());
            },
            None => {
                analyzer.document_uri = Some(uri.clone());
            },
        }
        let ghost before = self.sessions@;
        let session = DocumentSession { uri, text, analyzer };
        self.sessions.push(session);
        proof {
            assert(session.wf());
            lemma_lookup_push(before, session);
            assert forall|i: int, j: int|
                0 <= i < j < self.sessions@.len() implies (#[trigger] self.sessions@[i]).uri@ != (
            #[trigger] self.sessions@[j]).uri@ by {
                if j < before.len() as int {
                } else {
                    assert(lookup(before, self.sessions@[j].uri@) is None);
                    lemma_lookup_present(before, i);
                }
            }
        }
    }

    /// Applies a change notification: the text and tree are replaced
    /// wholesale, exactly as `open` does.
    pub fn change(&mut self, uri: String, text: String, tree: Option<SyntaxNode>)
        requires
            old(self).wf(),
        ensures
            final(self).wf(),
            lookup(final(self).sessions@, uri@) == Some(
                SessionModel {
                    uri: uri@,
                    text: text@,
                    tree: match tree {
                        Some(t) => Some(t.model()),
                        None => None,
                    },
                },
            ),
            forall|u: Seq<char>|
                u != uri@ ==> #[trigger] lookup(final(self).sessions@, u) == lookup(
                    old(self).sessions@,
                    u,
                ),
    {
        self.open(uri, text, tree);
    }

    /// Closes a document: its session, if any, is deleted; every other
    /// session is untouched.
    pub fn close(&mut self, uri: &String)
        requires
            old(self).wf(),
        ensures
            final(self).wf(),
            lookup(final(self).sessions@, uri@) is None,
            forall|u: Seq<char>|
                u != uri@ ==> #[trigger] lookup(final(self).sessions@, u) == lookup(
                    old(self).sessions@,
                    u,
                ),
    {
        let n_sessions = self.sessions.len();
        for i in 0..n_sessions
            invariant
                n_sessions == self.sessions@.len(),
                self.sessions@ == old(self).sessions@,
                old(self).wf(),
                forall|j: int| 0 <= j < i ==> (#[trigger] self.sessions@[j]).uri@ != uri@,
        {
            let hit = self.sessions[i].uri == *uri;
            if hit {
                self.sessions.remove(i);
                proof {
                    lemma_lookup_remove(old(self).sessions@, i as int, uri@);
                }
                return ;
            }
        }
        proof {
            lemma_lookup_absent(self.sessions@, uri@);
        }
    }

    /// Finds the session for `uri`, if any.
    fn find_session<'a>(&'a self, uri: &String) -> (r: Option<&'a DocumentSession>)
        requires
            self.wf(),
        ensures
            match r {
                Some(s) => lookup(self.sessions@, uri@) == Some(s.model()) && s.wf() && s.uri@
                    == uri@,
                None => lookup(self.sessions@, uri@) is None,
            },
    {
        let n_sessions = self.sessions.len();
        for i in 0..n_sessions
            invariant
                n_sessions == self.sessions@.len(),
                self.wf(),
                forall|j: int| 0 <= j < i ==> (#[trigger] self.sessions@[j]).uri@ != uri@,
        {
            let hit = self.sessions[i].uri == *uri;
            if hit {
                proof {
                    lemma_lookup_prefix(self.sessions@, uri@, i as int);
                }
                return Some(&self.sessions[i]);
            }
        }
        proof {
            lemma_lookup_absent(self.sessions@, uri@);
        }
        None
    }

    /// Whether a session for `uri` is open.
    pub fn is_open(&self, uri: &String) -> (r: bool)
        requires
            self.wf(),
        ensures
            r == (lookup(self.sessions@, uri@) is Some),
    {
        self.find_session(uri).is_some()
    }

    /// The outline of the document at `uri`: its extracted symbol forest,
    /// or nothing when the document is not open or never parsed.
    pub fn document_symbols(&self, uri: &String) -> (r: Option<Vec<Symbol>>)
        requires
            self.wf(),
        ensures
            match r {
                Some(syms) => match lookup(self.sessions@, uri@) {
                    Some(sm) => sm.tree is Some && sym_models(syms@) == extract_node(
                        sm.tree->Some_0,
                    ),
                    None => false,
                },
                None => match lookup(self.sessions@, uri@) {
                    Some(sm) => sm.tree is None,
                    None => true,
                },
            },
    {
        match self.find_session(uri) {
            Some(s) => s.analyzer.get_document_symbols(),
            None => None,
        }
    }

    /// The hover query for the document at `uri`; see `hover_spec`.
    pub fn hover(&self, uri: &String, pos: Pos) -> (r: Option<HoverInfo>)
        requires
            self.wf(),
        ensures
            opt_hover_model(r) == match lookup(self.sessions@, uri@) {
                Some(sm) => match sm.tree {
                    Some(t) => hover_spec(t, pos),
                    None => None::<HoverModel>,
                },
                None => None::<HoverModel>,
            },
    {
        match self.find_session(uri) {
            Some(s) => s.analyzer.get_hover_info(pos),
            None => None,
        }
    }

    /// The go-to-definition query for the document at `uri`; see
    /// `session_definition`.
    pub fn definition(&self, uri: &String, pos: Pos) -> (r: Option<DocLocation>)
        requires
            self.wf(),
        ensures
            opt_loc_model(r) == match lookup(self.sessions@, uri@) {
                Some(sm) => session_definition(sm, pos),
                None => None::<LocModel>,
            },
    {
        match self.find_session(uri) {
            Some(s) => {
                let r = s.analyzer.find_definition(pos);
                proof {
                    if s.analyzer.tree is Some {
                        let t = s.analyzer.tree->Some_0.model();
                        let rp = resolve_at(t, pos);
                        lemma_index_buckets(flat_symbols(t), rp.0.text);
                    }
                }
                r
            },
            None => None,
        }
    }

    /// The find-references query for the document at `uri`; see
    /// `session_references`.
    pub fn references(&self, uri: &String, pos: Pos) -> (r: Option<Vec<DocLocation>>)
        requires
            self.wf(),
        ensures
            match r {
                Some(ls) => match lookup(self.sessions@, uri@) {
                    Some(sm) => session_references(sm, pos) == Some(loc_models(ls@)),
                    None => false,
                },
                None => match lookup(self.sessions@, uri@) {
                    Some(sm) => session_references(sm, pos) is None,
                    None => true,
                },
            },
    {
        match self.find_session(uri) {
            Some(s) => {
                let r = s.analyzer.find_references(pos);
                proof {
                    if s.analyzer.tree is Some {
                        let t = s.analyzer.tree->Some_0.model();
                        let rp = resolve_at(t, pos);
                        lemma_index_buckets(flat_symbols(t), rp.0.text);
                    }
                }
                r
            },
            None => None,
        }
    }

    /// The completion query for the document at `uri`; see
    /// `session_completion`.
    pub fn completion(&self, uri: &String, pos: Pos, trigger_char: Option<String>) -> (r: Option<
        Vec<CompletionEntry>,
    >)
        requires
            self.wf(),
        ensures
            match r {
                Some(items) => match lookup(self.sessions@, uri@) {
                    Some(sm) => session_completion(
                        sm,
                        pos,
                        match trigger_char {
                            Some(tc) => Some(tc@),
                            None => None,
                        },
                    ) == Some(comp_models(items@)),
                    None => false,
                },
                None => match lookup(self.sessions@, uri@) {
                    Some(sm) => session_completion(
                        sm,
                        pos,
                        match trigger_char {
                            Some(tc) => Some(tc@),
                            None => None,
                        },
                    ) is None,
                    None => true,
                },
            },
    {
        match self.find_session(uri) {
            Some(s) => {
                let r = s.analyzer.get_completion_items(pos, trigger_char);
                proof {
                    if s.analyzer.tree is Some {
                        let t = s.analyzer.tree->Some_0.model();
                        match scope_name(t, pos) {
                            Some(name) => lemma_index_buckets(flat_symbols(t), name),
                            None => {},
                        }
                    }
                }
                r
            },
            None => None,
        }
    }
}

proof fn lemma_lookup_push(ss: Seq<DocumentSession>, s: DocumentSession)
    requires
        lookup(ss, s.uri@) is None,
    ensures
        lookup(ss.push(s), s.uri@) == Some(s.model()),
        forall|u: Seq<char>| u != s.uri@ ==> #[trigger] lookup(ss.push(s), u) == lookup(ss, u),
    decreases ss.len(),
{
    let r = ss.push(s);
    if ss.len() == 0 {
        assert(r[0] == s);
        assert(r.drop_first() =~= Seq::<DocumentSession>::empty());
        assert(lookup(r, s.uri@) == Some(s.model()));
        assert forall|u: Seq<char>| u != s.uri@ implies #[trigger] lookup(r, u) == lookup(ss, u) by {
            assert(lookup(r, u) == lookup(r.drop_first(), u));
            assert(lookup(r.drop_first(), u) is None);
            assert(lookup(ss, u) is None);
        }
    } else {
        assert(ss[0].uri@ != s.uri@);
        lemma_lookup_push(ss.drop_first(), s);
        assert(r[0] == ss[0]);
        assert(r.drop_first() =~= ss.drop_first().push(s));
        assert(lookup(r, s.uri@) == lookup(r.drop_first(), s.uri@));
        assert(lookup(r.drop_first(), s.uri@) == Some(s.model()));
        assert forall|u: Seq<char>| u != s.uri@ implies #[trigger] lookup(r, u) == lookup(ss, u) by {
            if u == ss[0].uri@ {
                assert(lookup(r, u) == Some(r[0].model()));
                assert(lookup(ss, u) == Some(ss[0].model()));
            } else {
                assert(lookup(r, u) == lookup(r.drop_first(), u));
                assert(lookup(r.drop_first(), u) == lookup(ss.drop_first(), u));
                assert(lookup(ss, u) == lookup(ss.drop_first(), u));
            }
        }
    }
}

/// An element's URI is found by lookup.
proof fn lemma_lookup_present(ss: Seq<DocumentSession>, i: int)
    requires
        0 <= i < ss.len(),
    ensures
        lookup(ss, ss[i].uri@) is Some,
    decreases i,
{
    if ss[0].uri@ != ss[i].uri@ {
        assert(i > 0);
        assert(ss.drop_first()[i - 1] == ss[i]);
        lemma_lookup_present(ss.drop_first(), i - 1);
    }
}

proof fn lemma_lookup_prefix(ss: Seq<DocumentSession>, uri: Seq<char>, i: int)
    requires
        0 <= i < ss.len(),
        forall|j: int| 0 <= j < i ==> (#[trigger] ss[j]).uri@ != uri,
        ss[i].uri@ == uri,
    ensures
        lookup(ss, uri) == Some(ss[i].model()),
    decreases i,
{
    if i == 0 {
    } else {
        assert(ss.drop_first()[i - 1] == ss[i]);
        lemma_lookup_prefix(ss.drop_first(), uri, i - 1);
    }
}

proof fn lemma_lookup_absent(ss: Seq<DocumentSession>, uri: Seq<char>)
    requires
        forall|j: int| 0 <= j < ss.len() ==> (#[trigger] ss[j]).uri@ != uri,
    ensures
        lookup(ss, uri) is None,
    decreases ss.len(),
{
    if ss.len() > 0 {
        assert forall|j: int| 0 <= j < ss.drop_first().len() implies (#[trigger] ss.drop_first()[j]).uri@
            != uri by {
            assert(ss.drop_first()[j] == ss[j + 1]);
        }
        lemma_lookup_absent(ss.drop_first(), uri);
    }
}

/// Removing position `i`, the first hit for `uri`, removes `uri` from the
/// lookup and leaves every other URI's result unchanged.
proof fn lemma_lookup_remove(ss: Seq<DocumentSession>, i: int, uri: Seq<char>)
    requires
        0 <= i < ss.len(),
        forall|j: int| 0 <= j < i ==> (#[trigger] ss[j]).uri@ != uri,
        ss[i].uri@ == uri,
        forall|j: int, k: int|
            0 <= j < k < ss.len() ==> (#[trigger] ss[j]).uri@ != (#[trigger] ss[k]).uri@,
    ensures
        lookup(ss.remove(i), uri) is None,
        forall|u: Seq<char>| u != uri ==> #[trigger] lookup(ss.remove(i), u) == lookup(ss, u),
    decreases i,
{
    let r = ss.remove(i);
    if i == 0 {
        assert(r =~= ss.drop_first());
        assert forall|j: int|
            0 <= j < ss.drop_first().len() implies (#[trigger] ss.drop_first()[j]).uri@ != uri by {
            assert(ss.drop_first()[j] == ss[j + 1]);
        }
        lemma_lookup_absent(ss.drop_first(), uri);
        assert forall|u: Seq<char>| u != uri implies #[trigger] lookup(r, u) == lookup(ss, u) by {
            assert(lookup(ss, u) == lookup(ss.drop_first(), u));
        }
    } else {
        assert forall|j: int, k: int|
            0 <= j < k < ss.drop_first().len() implies (#[trigger] ss.drop_first()[j]).uri@ != (
        #[trigger] ss.drop_first()[k]).uri@ by {
            assert(ss.drop_first()[j] == ss[j + 1]);
            assert(ss.drop_first()[k] == ss[k + 1]);
        }
        assert forall|j: int| 0 <= j < i - 1 implies (#[trigger] ss.drop_first()[j]).uri@ != uri by {
            assert(ss.drop_first()[j] == ss[j + 1]);
        }
        assert(ss.drop_first()[i - 1] == ss[i]);
        lemma_lookup_remove(ss.drop_first(), i - 1, uri);
        assert(r[0] == ss[0]);
        assert(r.len() > 0);
        assert(r.drop_first() =~= ss.drop_first().remove(i - 1));
        assert(ss[0].uri@ != uri);
        assert(lookup(r, uri) == lookup(r.drop_first(), uri));
        assert(lookup(r.drop_first(), uri) is None);
        assert forall|u: Seq<char>| u != uri implies #[trigger] lookup(r, u) == lookup(ss, u) by {
            if u == ss[0].uri@ {
                assert(lookup(r, u) == Some(r[0].model()));
                assert(lookup(ss, u) == Some(ss[0].model()));
            } else {
                assert(lookup(r, u) == lookup(r.drop_first(), u));
                assert(lookup(r.drop_first(), u) == lookup(ss.drop_first(), u));
                assert(lookup(ss, u) == lookup(ss.drop_first(), u));
            }
        }
    }
}

} // verus!
