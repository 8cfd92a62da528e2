use perf_linter_core::parser::{count_nodes, dialect_for, parse_result, traverse_ast, AstNode, Counter, NodeKind, ParseOutcome, SpanJson};
use perf_linter_core::paths::{find_all_source_files, is_source_path};
use perf_linter_core::redos::{detect_simple_nested_quantifier, is_likely_safe, rewrite_from_captures};

#[test]
fn source_extensions_are_recognized() {
    assert!(is_source_path("/proj/src/App.tsx"));
    assert!(is_source_path("src/a.ts"));
    assert!(is_source_path("lib/b.js"));
    assert!(is_source_path("c.jsx"));
    assert!(!is_source_path("README.md"));
    assert!(!is_source_path("src/a.tsx.bak"));
    assert!(!is_source_path("src/.ts"));
    assert!(!is_source_path("src/ts"));
    assert!(!is_source_path(""));
}

#[test]
fn denylisted_directories_are_skipped() {
    assert!(!is_source_path("/proj/node_modules/react/index.js"));
    assert!(!is_source_path("/proj/dist/app.js"));
    assert!(!is_source_path("build/x.ts"));
    assert!(!is_source_path("/proj/.git/hooks/a.js"));
    assert!(!is_source_path("/proj/target/gen.ts"));
    assert!(is_source_path("/proj/distance/a.ts"));
    assert!(is_source_path("/proj/my_build/a.ts"));
    assert!(!is_source_path("C:\\proj\\node_modules\\react\\index.js"));
    assert!(!is_source_path("proj\\dist/app.js"));
    assert!(is_source_path("C:\\proj\\src\\App.tsx"));
}

#[test]
fn source_files_are_filtered_in_order() {
    let paths: Vec<String> = vec!["/p/b.ts", "/p/node_modules/x.ts", "/p/a.jsx", "/p/notes.txt"].into_iter().map(String::from).collect();
    assert_eq!(find_all_source_files(&paths), vec!["/p/b.ts".to_string(), "/p/a.jsx".to_string()]);
}

#[test]
fn nested_quantifier_is_detected_and_rewritten() {
    assert_eq!(detect_simple_nested_quantifier("(a+)+"), Some("(a+)".to_string()));
    assert_eq!(detect_simple_nested_quantifier("^(x+)+$"), Some("^(x+)$".to_string()));
    assert_eq!(detect_simple_nested_quantifier("(ab+)+"), None);
    assert_eq!(detect_simple_nested_quantifier("a+"), None);
    assert!(!is_likely_safe("(a+)+"));
    assert!(is_likely_safe("abc"));
    assert!(is_likely_safe(""));
}

#[test]
fn rewrite_from_groups() {
    let groups = vec![Some("^(z+)+".to_string()), Some("^".to_string()), Some("z".to_string()), None];
    assert_eq!(rewrite_from_captures(&groups), Some("^(z+)".to_string()));
    let missing = vec![Some("x".to_string()), Some(String::new()), None];
    assert_eq!(rewrite_from_captures(&missing), None);
    assert_eq!(rewrite_from_captures(&vec![]), None);
}

fn leaf() -> AstNode {
    AstNode { kind: NodeKind::Root, span: SpanJson { lo: 0, hi: 0 }, children: vec![] }
}

#[test]
fn traversal_counts_every_node() {
    let tree = AstNode {
        kind: NodeKind::Root,
        span: SpanJson { lo: 0, hi: 10 },
        children: vec![leaf(), AstNode { kind: NodeKind::Root, span: SpanJson { lo: 1, hi: 2 }, children: vec![leaf()] }],
    };
    assert_eq!(count_nodes(&tree).nodes_visited, 4);
    assert_eq!(count_nodes(&leaf()).nodes_visited, 1);
    let mut counter = Counter::new();
    traverse_ast(&tree, &mut counter);
    traverse_ast(&leaf(), &mut counter);
    assert_eq!(counter.count, 5);
}

#[test]
fn parse_result_follows_the_outcome() {
    let outcome = |m: bool, n: bool, s: bool| ParseOutcome { module_parsed: m, module_recorded_no_error: n, script_parsed: s };
    for (m, n, s) in [(true, false, false), (false, true, false), (false, false, true), (true, true, true)] {
        let ast = parse_result(outcome(m, n, s)).unwrap();
        assert!(matches!(ast.kind, NodeKind::Root));
        assert!(ast.children.is_empty());
        assert_eq!((ast.span.lo, ast.span.hi), (0, 0));
    }
    let err = parse_result(outcome(false, false, false)).unwrap_err();
    assert_eq!(err.0, "Parse error");
}

#[test]
fn dialect_follows_file_name() {
    let tsx = dialect_for("App.tsx");
    assert!(tsx.typescript && tsx.jsx && !tsx.declaration);
    let ts = dialect_for("types.d.ts");
    assert!(ts.typescript && !ts.jsx && ts.declaration);
    let jsx = dialect_for("Card.jsx");
    assert!(!jsx.typescript && jsx.jsx);
    let js = dialect_for("util.js");
    assert!(!js.typescript && !js.jsx && !js.declaration);
}
