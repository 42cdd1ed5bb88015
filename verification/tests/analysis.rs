use delphi_language_server::analyzer::{CompletionKind, SymbolAnalyzer};
use delphi_language_server::diagnostics::get_diagnostics;
use delphi_language_server::index::SymbolIndex;
use delphi_language_server::symbols::{collect_symbols, flatten_symbols, SymKind};
use delphi_language_server::syntax::{NodeKind, Pos, Span, SyntaxNode};

fn pos(line: u32, col: u32) -> Pos {
    Pos { line, col }
}

fn span(sl: u32, sc: u32, el: u32, ec: u32) -> Span {
    Span { start: pos(sl, sc), end: pos(el, ec) }
}

fn node(kind: NodeKind, sp: Span, text: &str, children: Vec<SyntaxNode>) -> SyntaxNode {
    SyntaxNode {
        kind,
        span: sp,
        text: text.to_string(),
        is_missing: false,
        is_extra: false,
        children,
    }
}

fn ident(sp: Span, text: &str) -> SyntaxNode {
    node(NodeKind::Identifier, sp, text, vec![])
}

fn other(sp: Span, text: &str) -> SyntaxNode {
    node(NodeKind::Other, sp, text, vec![])
}

/// `program Foo; begin end.`
fn program_foo() -> SyntaxNode {
    node(
        NodeKind::Program,
        span(0, 0, 0, 24),
        "program Foo; begin end.",
        vec![
            other(span(0, 0, 0, 7), "program"),
            ident(span(0, 8, 0, 11), "Foo"),
            other(span(0, 11, 0, 12), ";"),
            other(span(0, 13, 0, 24), "begin end."),
        ],
    )
}

/// `procedure DoIt; begin end;` at the given line.
fn procedure_doit(line: u32) -> SyntaxNode {
    node(
        NodeKind::ProcedureDecl,
        span(line, 0, line, 26),
        "procedure DoIt; begin end;",
        vec![
            other(span(line, 0, line, 9), "procedure"),
            ident(span(line, 10, line, 14), "DoIt"),
            other(span(line, 14, line, 26), "; begin end;"),
        ],
    )
}

/// `var x: TBar;` style declaration at the given line.
fn var_decl(line: u32, name: &str) -> SyntaxNode {
    node(
        NodeKind::VarDecl,
        span(line, 0, line, 12),
        "var x: TBar;",
        vec![
            other(span(line, 0, line, 3), "var"),
            ident(span(line, 4, line, 5), name),
            other(span(line, 5, line, 12), ": TBar;"),
        ],
    )
}

#[test]
fn program_foo_outline() {
    let mut analyzer = SymbolAnalyzer::new();
    analyzer.set_content(program_foo(), "file:///foo.pas".to_string());
    let syms = analyzer.get_document_symbols().expect("tree is present");
    assert_eq!(syms.len(), 1);
    assert_eq!(syms[0].name, "Foo");
    assert!(matches!(syms[0].kind, SymKind::Module));
    assert_eq!(syms[0].range, span(0, 0, 0, 24));
    assert_eq!(syms[0].selection_range, span(0, 8, 0, 11));
    assert!(syms[0].children.is_empty());
    assert!(syms[0].detail.is_none());
}

#[test]
fn no_tree_no_symbols() {
    let analyzer = SymbolAnalyzer::new();
    assert!(analyzer.get_document_symbols().is_none());
    assert!(analyzer.get_hover_info(pos(0, 0)).is_none());
    assert!(analyzer.find_definition(pos(0, 0)).is_none());
    assert!(analyzer.find_references(pos(0, 0)).is_none());
    assert!(analyzer.get_completion_items(pos(0, 0), None).is_none());
}

#[test]
fn selection_range_is_identifier_span() {
    let forest = collect_symbols(&procedure_doit(0));
    assert_eq!(forest.len(), 1);
    assert_eq!(forest[0].name, "DoIt");
    assert!(matches!(forest[0].kind, SymKind::Function));
    assert_eq!(forest[0].range, span(0, 0, 0, 26));
    assert_eq!(forest[0].selection_range, span(0, 10, 0, 14));
    assert_eq!(forest[0].detail.as_deref(), Some("procedure DoIt; begin end;"));
}

#[test]
fn declaration_without_identifier_is_skipped() {
    let decl = node(
        NodeKind::VarDecl,
        span(0, 0, 0, 10),
        "var ?;",
        vec![other(span(0, 0, 0, 3), "var")],
    );
    let forest = collect_symbols(&decl);
    assert!(forest.is_empty());
}

#[test]
fn nested_declarations_are_not_lost() {
    // An unrecognized wrapper node still has its children traversed.
    let wrapper = node(
        NodeKind::Other,
        span(0, 0, 2, 0),
        "",
        vec![var_decl(0, "a"), var_decl(1, "b")],
    );
    let forest = collect_symbols(&wrapper);
    assert_eq!(forest.len(), 2);
    assert_eq!(forest[0].name, "a");
    assert_eq!(forest[1].name, "b");
}

#[test]
fn index_buckets_hold_exactly_the_named_symbols() {
    // type TBar and var x: two buckets of one symbol each.
    let root = node(
        NodeKind::Other,
        span(0, 0, 2, 0),
        "",
        vec![
            node(
                NodeKind::TypeDecl,
                span(0, 0, 0, 22),
                "type TBar = class end;",
                vec![
                    other(span(0, 0, 0, 4), "type"),
                    ident(span(0, 5, 0, 9), "TBar"),
                    other(span(0, 10, 0, 22), "= class end;"),
                ],
            ),
            var_decl(1, "x"),
        ],
    );
    let forest = collect_symbols(&root);
    let flat = flatten_symbols(&forest);
    let index = SymbolIndex::from_symbols(flat);
    assert_eq!(index.buckets.len(), 2);
    assert_eq!(index.buckets[0].name, "TBar");
    assert_eq!(index.buckets[0].syms.len(), 1);
    assert!(matches!(index.buckets[0].syms[0].kind, SymKind::Type));
    assert_eq!(index.buckets[1].name, "x");
    assert_eq!(index.buckets[1].syms.len(), 1);
    assert!(matches!(index.buckets[1].syms[0].kind, SymKind::Variable));
}

#[test]
fn same_name_symbols_share_a_bucket_in_traversal_order() {
    let root = node(
        NodeKind::Other,
        span(0, 0, 2, 0),
        "",
        vec![procedure_doit(0), procedure_doit(1)],
    );
    let forest = collect_symbols(&root);
    let flat = flatten_symbols(&forest);
    let index = SymbolIndex::from_symbols(flat);
    assert_eq!(index.buckets.len(), 1);
    assert_eq!(index.buckets[0].name, "DoIt");
    assert_eq!(index.buckets[0].syms.len(), 2);
    assert_eq!(index.buckets[0].syms[0].range, span(0, 0, 0, 26));
    assert_eq!(index.buckets[0].syms[1].range, span(1, 0, 1, 26));
}

#[test]
fn nested_symbols_reach_the_index() {
    // A module symbol and its nested variable both get bucket entries.
    let root = node(
        NodeKind::Program,
        span(0, 0, 2, 0),
        "program P; var x: Integer; begin end.",
        vec![
            other(span(0, 0, 0, 7), "program"),
            ident(span(0, 8, 0, 9), "P"),
            var_decl(1, "x"),
        ],
    );
    let forest = collect_symbols(&root);
    assert_eq!(forest.len(), 1);
    assert_eq!(forest[0].children.len(), 1);
    let flat = flatten_symbols(&forest);
    let index = SymbolIndex::from_symbols(flat);
    assert_eq!(index.buckets.len(), 2);
    assert_eq!(index.buckets[0].name, "P");
    assert_eq!(index.buckets[1].name, "x");
}

#[test]
fn extraction_is_idempotent() {
    let tree = program_foo();
    let run1 = collect_symbols(&tree);
    let run2 = collect_symbols(&tree);
    assert_eq!(run1, run2);
    let index1 = SymbolIndex::from_symbols(flatten_symbols(&run1));
    let index2 = SymbolIndex::from_symbols(flatten_symbols(&run2));
    assert_eq!(index1.buckets.len(), index2.buckets.len());
    for (b1, b2) in index1.buckets.iter().zip(index2.buckets.iter()) {
        assert_eq!(b1.name, b2.name);
        assert_eq!(b1.syms, b2.syms);
    }
}

#[test]
fn clean_tree_yields_no_diagnostics() {
    assert!(get_diagnostics(&program_foo()).is_empty());
}

#[test]
fn error_node_yields_one_diagnostic_at_its_span() {
    // An unterminated string produces a grammar error node.
    let root = node(
        NodeKind::Program,
        span(0, 0, 1, 0),
        "program P; 'oops",
        vec![
            other(span(0, 0, 0, 7), "program"),
            ident(span(0, 8, 0, 9), "P"),
            node(NodeKind::ErrorNode, span(0, 11, 0, 16), "'oops", vec![]),
        ],
    );
    let diags = get_diagnostics(&root);
    assert_eq!(diags.len(), 1);
    assert_eq!(diags[0], span(0, 11, 0, 16));
}

#[test]
fn missing_node_yields_a_diagnostic() {
    let mut missing = other(span(0, 9, 0, 9), "");
    missing.is_missing = true;
    let root = node(
        NodeKind::Program,
        span(0, 0, 1, 0),
        "program P",
        vec![
            other(span(0, 0, 0, 7), "program"),
            ident(span(0, 8, 0, 9), "P"),
            missing,
        ],
    );
    let diags = get_diagnostics(&root);
    assert_eq!(diags.len(), 1);
    assert_eq!(diags[0], span(0, 9, 0, 9));
}

#[test]
fn completion_without_trigger_offers_every_symbol() {
    let root = node(
        NodeKind::Other,
        span(0, 0, 3, 0),
        "",
        vec![var_decl(0, "A"), var_decl(1, "B"), var_decl(2, "C")],
    );
    let mut analyzer = SymbolAnalyzer::new();
    analyzer.set_content(root, "file:///abc.pas".to_string());
    let items = analyzer
        .get_completion_items(pos(0, 1), None)
        .expect("tree is present");
    let labels: Vec<&str> = items.iter().map(|i| i.label.as_str()).collect();
    assert_eq!(labels, vec!["A", "B", "C"]);
    assert!(items.iter().all(|i| matches!(i.kind, CompletionKind::Variable)));
}

#[test]
fn completion_with_other_trigger_offers_nothing() {
    let mut analyzer = SymbolAnalyzer::new();
    analyzer.set_content(program_foo(), "file:///foo.pas".to_string());
    let items = analyzer
        .get_completion_items(pos(0, 9), Some(":".to_string()))
        .expect("tree is present");
    assert!(items.is_empty());
}

#[test]
fn dot_completion_uses_the_enclosing_type_name() {
    let root = node(
        NodeKind::Other,
        span(0, 0, 3, 0),
        "",
        vec![node(
            NodeKind::TypeDecl,
            span(0, 0, 2, 4),
            "type TPoint = class end;",
            vec![
                other(span(0, 0, 0, 4), "type"),
                ident(span(0, 5, 0, 11), "TPoint"),
                other(span(1, 0, 1, 10), "class end;"),
            ],
        )],
    );
    let mut analyzer = SymbolAnalyzer::new();
    analyzer.set_content(root, "file:///point.pas".to_string());
    let items = analyzer
        .get_completion_items(pos(1, 2), Some(".".to_string()))
        .expect("tree is present");
    assert_eq!(items.len(), 1);
    assert_eq!(items[0].label, "TPoint");
    assert!(matches!(items[0].kind, CompletionKind::Class));
}
