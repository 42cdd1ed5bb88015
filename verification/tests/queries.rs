use delphi_language_server::analyzer::SymbolAnalyzer;
use delphi_language_server::store::DocumentStore;
use delphi_language_server::syntax::{NodeKind, Pos, Span, SyntaxNode};

fn pos(line: u32, col: u32) -> Pos {
    Pos { line, col }
}

fn span(sl: u32, sc: u32, el: u32, ec: u32) -> Span {
    Span { start: pos(sl, sc), end: pos(el, ec) }
}

fn node(kind: NodeKind, sp: Span, text: &str, children: Vec<SyntaxNode>) -> SyntaxNode {
    SyntaxNode {
        kind,
        span: sp,
        text: text.to_string(),
        is_missing: false,
        is_extra: false,
        children,
    }
}

fn ident(sp: Span, text: &str) -> SyntaxNode {
    node(NodeKind::Identifier, sp, text, vec![])
}

fn other(sp: Span, text: &str) -> SyntaxNode {
    node(NodeKind::Other, sp, text, vec![])
}

fn procedure_doit(line: u32) -> SyntaxNode {
    node(
        NodeKind::ProcedureDecl,
        span(line, 0, line, 26),
        "procedure DoIt; begin end;",
        vec![
            other(span(line, 0, line, 9), "procedure"),
            ident(span(line, 10, line, 14), "DoIt"),
            other(span(line, 14, line, 26), "; begin end;"),
        ],
    )
}

fn two_procedures() -> SyntaxNode {
    node(
        NodeKind::Other,
        span(0, 0, 2, 0),
        "",
        vec![procedure_doit(0), procedure_doit(1)],
    )
}

fn program_foo() -> SyntaxNode {
    node(
        NodeKind::Program,
        span(0, 0, 0, 24),
        "program Foo; begin end.",
        vec![
            other(span(0, 0, 0, 7), "program"),
            ident(span(0, 8, 0, 11), "Foo"),
            other(span(0, 11, 0, 12), ";"),
            other(span(0, 13, 0, 24), "begin end."),
        ],
    )
}

#[test]
fn hover_on_procedure_name() {
    let mut analyzer = SymbolAnalyzer::new();
    analyzer.set_content(two_procedures(), "file:///p.pas".to_string());
    let hover = analyzer.get_hover_info(pos(0, 11)).expect("hoverable");
    assert_eq!(hover.value, "```pascal\nfunction\n```\nprocedure DoIt; begin end;");
    assert_eq!(hover.range, span(0, 10, 0, 14));
}

#[test]
fn hover_on_non_declaration_parent_returns_nothing() {
    // The module name's parent is a program node, not a routine, type or
    // variable declaration, so there is no hover for it.
    let mut analyzer = SymbolAnalyzer::new();
    analyzer.set_content(program_foo(), "file:///foo.pas".to_string());
    assert!(analyzer.get_hover_info(pos(0, 9)).is_none());
    // A position on plain keyword text resolves to a non-identifier node.
    assert!(analyzer.get_hover_info(pos(0, 2)).is_none());
}

#[test]
fn definition_returns_first_declaration() {
    let mut analyzer = SymbolAnalyzer::new();
    analyzer.set_content(two_procedures(), "file:///p.pas".to_string());
    // From the second declaration's identifier, definition still answers
    // the first bucket entry: the first declaration in pre-order.
    let loc = analyzer.find_definition(pos(1, 11)).expect("known name");
    assert_eq!(loc.uri, "file:///p.pas");
    assert_eq!(loc.range, span(0, 0, 0, 26));
}

#[test]
fn references_return_every_declaration_in_order() {
    let mut analyzer = SymbolAnalyzer::new();
    analyzer.set_content(two_procedures(), "file:///p.pas".to_string());
    let refs = analyzer.find_references(pos(0, 11)).expect("known name");
    assert_eq!(refs.len(), 2);
    assert_eq!(refs[0].range, span(0, 0, 0, 26));
    assert_eq!(refs[1].range, span(1, 0, 1, 26));
    assert!(refs.iter().all(|l| l.uri == "file:///p.pas"));
}

#[test]
fn single_declaration_definition_equals_references() {
    let root = node(NodeKind::Other, span(0, 0, 1, 0), "", vec![procedure_doit(0)]);
    let mut analyzer = SymbolAnalyzer::new();
    analyzer.set_content(root, "file:///one.pas".to_string());
    let loc = analyzer.find_definition(pos(0, 11)).expect("known name");
    let refs = analyzer.find_references(pos(0, 11)).expect("known name");
    assert_eq!(refs.len(), 1);
    assert_eq!(refs[0].uri, loc.uri);
    assert_eq!(refs[0].range, loc.range);
}

#[test]
fn unknown_identifier_has_no_definition() {
    // The identifier resolves, but nothing in the index carries its name:
    // an isolated identifier token is not a declaration.
    let root = node(
        NodeKind::Other,
        span(0, 0, 1, 0),
        "",
        vec![ident(span(0, 0, 0, 4), "Lost")],
    );
    let mut analyzer = SymbolAnalyzer::new();
    analyzer.set_content(root, "file:///l.pas".to_string());
    assert!(analyzer.find_definition(pos(0, 1)).is_none());
    assert!(analyzer.find_references(pos(0, 1)).is_none());
}

#[test]
fn error_nodes_are_climbed_before_matching() {
    // The position lands inside an error node nested in a variable
    // declaration; resolution climbs to the nearest non-error ancestor, so
    // no identifier is matched and the query returns nothing rather than a
    // syntax-error artifact.
    let root = node(
        NodeKind::VarDecl,
        span(0, 0, 0, 12),
        "var ?!: Bad;",
        vec![
            other(span(0, 0, 0, 3), "var"),
            node(NodeKind::ErrorNode, span(0, 4, 0, 6), "?!", vec![]),
            ident(span(0, 8, 0, 11), "Bad"),
        ],
    );
    let mut analyzer = SymbolAnalyzer::new();
    analyzer.set_content(root, "file:///bad.pas".to_string());
    assert!(analyzer.get_hover_info(pos(0, 5)).is_none());
}

#[test]
fn missing_nodes_are_climbed_before_matching() {
    // A missing identifier token is a syntax-error artifact like an error
    // node: resolution climbs past it to its sound parent, so the
    // declaration's kind, not the phantom identifier, decides the queries.
    let mut missing_ident = ident(span(0, 4, 0, 7), "");
    missing_ident.is_missing = true;
    let root = node(
        NodeKind::VarDecl,
        span(0, 0, 0, 12),
        "var : Bad;",
        vec![
            other(span(0, 0, 0, 3), "var"),
            missing_ident,
            ident(span(0, 8, 0, 11), "Bad"),
        ],
    );
    let mut analyzer = SymbolAnalyzer::new();
    analyzer.set_content(root, "file:///m.pas".to_string());
    assert!(analyzer.get_hover_info(pos(0, 5)).is_none());
    assert!(analyzer.find_definition(pos(0, 5)).is_none());
    assert!(analyzer.find_references(pos(0, 5)).is_none());
}

#[test]
fn position_outside_the_tree_resolves_to_nothing() {
    let mut analyzer = SymbolAnalyzer::new();
    analyzer.set_content(program_foo(), "file:///foo.pas".to_string());
    assert!(analyzer.get_hover_info(pos(5, 0)).is_none());
    assert!(analyzer.find_definition(pos(5, 0)).is_none());
    assert!(analyzer.find_references(pos(5, 0)).is_none());
    assert!(analyzer.get_completion_items(pos(5, 0), None).is_none());
}

#[test]
fn store_open_query_close() {
    let uri = "file:///doc.pas".to_string();
    let mut store = DocumentStore::new();
    assert!(store.document_symbols(&uri).is_none());

    store.open(uri.clone(), "program Foo; begin end.".to_string(), Some(program_foo()));
    let syms = store.document_symbols(&uri).expect("open with a tree");
    assert_eq!(syms.len(), 1);
    assert_eq!(syms[0].name, "Foo");

    let loc = store.definition(&uri, pos(0, 9)).expect("module name is indexed");
    assert_eq!(loc.uri, uri);
    assert_eq!(loc.range, span(0, 0, 0, 24));

    store.close(&uri);
    assert!(store.document_symbols(&uri).is_none());
    assert!(!store.is_open(&uri));
}

#[test]
fn store_change_replaces_content_wholesale() {
    let uri = "file:///doc.pas".to_string();
    let mut store = DocumentStore::new();
    store.open(uri.clone(), "program Foo; begin end.".to_string(), Some(program_foo()));

    store.change(uri.clone(), "procedure DoIt; begin end;".to_string(), Some(two_procedures()));
    let refs = store.references(&uri, pos(0, 11)).expect("known name");
    assert_eq!(refs.len(), 2);

    // A parse failure leaves the session without analyzable content.
    store.change(uri.clone(), "@@@".to_string(), None);
    assert!(store.document_symbols(&uri).is_none());
    assert!(store.hover(&uri, pos(0, 1)).is_none());
}

#[test]
fn store_sessions_are_independent() {
    let uri_a = "file:///a.pas".to_string();
    let uri_b = "file:///b.pas".to_string();
    let mut store = DocumentStore::new();
    store.open(uri_a.clone(), "program Foo; begin end.".to_string(), Some(program_foo()));
    store.open(uri_b.clone(), "procedure DoIt; begin end;".to_string(), Some(two_procedures()));

    store.close(&uri_a);
    assert!(store.document_symbols(&uri_a).is_none());
    let refs = store.references(&uri_b, pos(0, 11)).expect("still open");
    assert_eq!(refs.len(), 2);
}
