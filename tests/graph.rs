use perf_linter_core::cache::IncrementalCache;
use perf_linter_core::graph::{MetadataGraph, SourceFile};
use perf_linter_core::metadata::FileAnalysis;
use perf_linter_core::syntax::{Callee, ExportedDecl, Initializer, Module, Node};

fn file(path: &str, content: &str, body: Option<Vec<Node>>) -> SourceFile {
    SourceFile { path: path.to_string(), content: content.to_string(), tree: body.map(|body| Module { body }) }
}

fn foo_with_memo() -> Vec<Node> {
    vec![
        Node::FnDecl { name: "Foo".to_string(), line: 1, params: vec![], children: vec![] },
        Node::VarDecl {
            name: Some("Memoized".to_string()),
            line: 2,
            init: Some(Initializer::Call {
                callee: Callee::Member { object: Some("React".to_string()), property: Some("memo".to_string()) },
                first_arg: Some("Foo".to_string()),
            }),
            children: vec![],
        },
        Node::ExportDecl { decl: ExportedDecl::Variables { names: vec![Some("Memoized".to_string())] }, line: 2, children: vec![] },
    ]
}

fn plain_button() -> Vec<Node> {
    vec![
        Node::Import { source: "react".to_string(), bindings: vec![], line: 1 },
        Node::FnDecl { name: "Button".to_string(), line: 2, params: vec![], children: vec![] },
        Node::ExportDecl { decl: ExportedDecl::Function { name: "Helper".to_string() }, line: 3, children: vec![] },
    ]
}

fn snapshot(g: &MetadataGraph) -> String {
    let mut c: Vec<String> = g.component_snapshot().iter().map(|e| format!("{:?}", e)).collect();
    let mut i: Vec<String> = g.import_snapshot().iter().map(|e| format!("{:?}", e)).collect();
    let mut x: Vec<String> = g.export_snapshot().iter().map(|e| format!("{:?}", e)).collect();
    c.sort();
    i.sort();
    x.sort();
    format!("{:?}{:?}{:?}", c, i, x)
}

#[test]
fn memoization_is_linked_after_indexing() {
    let files = vec![file("/p/foo.tsx", "foo", Some(foo_with_memo())), file("/p/button.tsx", "button", Some(plain_button()))];
    let mut cache = IncrementalCache::<FileAnalysis>::new("unused", "0.6.0");
    let g = MetadataGraph::index_project_with_cache(&files, false, &mut cache, 0);
    assert!(g.is_component_memoized("/p/foo.tsx"));
    assert!(!g.is_component_memoized("/p/button.tsx"));
    assert!(!g.is_component_memoized("/p/absent.tsx"));
    assert_eq!(cache.stats().memory_entries, 0);
}

#[test]
fn components_carry_their_file_and_exports() {
    let files = vec![file("/p/button.tsx", "button", Some(plain_button()))];
    let mut cache = IncrementalCache::<FileAnalysis>::new("unused", "0.6.0");
    let g = MetadataGraph::index_project_with_cache(&files, false, &mut cache, 0);
    let comps = g.component_snapshot();
    assert_eq!(comps.len(), 1);
    assert_eq!(comps[0].0, "/p/button.tsx");
    assert_eq!(comps[0].1.name, "Button");
    assert_eq!(comps[0].1.file_path, "/p/button.tsx");
    assert_eq!(comps[0].1.exports.len(), 1);
    assert_eq!(comps[0].1.exports[0].name, "Helper");
    assert_eq!(g.import_snapshot().len(), 1);
    assert_eq!(g.export_snapshot().len(), 1);
}

#[test]
fn memo_boundary_found_by_exported_symbol() {
    let files = vec![file("/p/foo.tsx", "foo", Some(foo_with_memo())), file("/p/button.tsx", "button", Some(plain_button()))];
    let mut cache = IncrementalCache::<FileAnalysis>::new("unused", "0.6.0");
    let g = MetadataGraph::index_project_with_cache(&files, false, &mut cache, 0);
    let found = g.get_memo_boundary("Memoized").unwrap();
    assert_eq!(found.name, "Foo");
    assert!(found.is_memoized);
    assert_eq!(found.file_path, "/p/foo.tsx");
    assert_eq!(g.get_memo_boundary("Helper").unwrap().name, "Button");
    assert!(g.get_memo_boundary("Nothing").is_none());
}

#[test]
fn last_component_of_a_file_takes_its_slot() {
    let body = vec![
        Node::FnDecl { name: "First".to_string(), line: 1, params: vec![], children: vec![] },
        Node::FnDecl { name: "Second".to_string(), line: 2, params: vec![], children: vec![] },
    ];
    let files = vec![file("/p/two.jsx", "two", Some(body))];
    let mut cache = IncrementalCache::<FileAnalysis>::new("unused", "0.6.0");
    let g = MetadataGraph::index_project_with_cache(&files, false, &mut cache, 0);
    let comps = g.component_snapshot();
    assert_eq!(comps.len(), 1);
    assert_eq!(comps[0].1.name, "Second");
}

#[test]
fn syntax_error_file_adds_nothing() {
    let files = vec![file("/p/broken.ts", "function (", None), file("/p/button.tsx", "button", Some(plain_button()))];
    let mut cache = IncrementalCache::<FileAnalysis>::new("unused", "0.6.0");
    let g = MetadataGraph::index_project_with_cache(&files, false, &mut cache, 0);
    let comps = g.component_snapshot();
    assert_eq!(comps.len(), 1);
    assert_eq!(comps[0].0, "/p/button.tsx");
    assert!(g.import_snapshot().iter().all(|e| e.0 != "/p/broken.ts"));
    assert!(g.export_snapshot().iter().all(|e| e.0 != "/p/broken.ts"));
    let only_good = vec![file("/p/button.tsx", "button", Some(plain_button()))];
    let g2 = MetadataGraph::index_project_with_cache(&only_good, false, &mut cache, 0);
    assert_eq!(snapshot(&g), snapshot(&g2));
}

#[test]
fn reindexing_with_cache_is_idempotent() {
    let files = vec![file("/p/foo.tsx", "foo", Some(foo_with_memo())), file("/p/button.tsx", "button", Some(plain_button()))];
    let mut cache = IncrementalCache::<FileAnalysis>::new("unused", "0.6.0");
    let g1 = MetadataGraph::index_project(&files, &mut cache, 100);
    assert_eq!(cache.stats().memory_entries, 2);
    assert_eq!(cache.entry("/p/foo.tsx").unwrap().modified_at, 100);
    // Second run: the trees are withheld, so anything not served by the cache would come out empty.
    let no_trees = vec![file("/p/foo.tsx", "foo", None), file("/p/button.tsx", "button", None)];
    let g2 = MetadataGraph::index_project(&no_trees, &mut cache, 200);
    assert_eq!(snapshot(&g1), snapshot(&g2));
    assert_eq!(cache.stats().memory_entries, 2);
    assert_eq!(cache.entry("/p/foo.tsx").unwrap().modified_at, 100);
    assert!(g2.is_component_memoized("/p/foo.tsx"));
}

#[test]
fn changed_text_is_extracted_again() {
    let mut cache = IncrementalCache::<FileAnalysis>::new("unused", "0.6.0");
    let first = vec![file("/p/a.tsx", "v1", Some(plain_button()))];
    MetadataGraph::index_project(&first, &mut cache, 1);
    let second = vec![file("/p/a.tsx", "v2", None)];
    let g = MetadataGraph::index_project(&second, &mut cache, 2);
    assert!(g.component_snapshot().is_empty());
    assert_eq!(cache.entry("/p/a.tsx").unwrap().modified_at, 2);
}

#[test]
fn empty_project_gives_empty_graph() {
    let mut cache = IncrementalCache::<FileAnalysis>::new("unused", "0.6.0");
    let g = MetadataGraph::index_project(&vec![], &mut cache, 0);
    assert!(g.component_snapshot().is_empty());
    assert!(g.import_snapshot().is_empty());
    assert!(g.export_snapshot().is_empty());
    let fresh = MetadataGraph::new();
    assert!(fresh.get_memo_boundary("x").is_none());
}

#[test]
fn indexing_passes_over_excluded_paths() {
    let files = vec![
        file("/p/node_modules/lib/button.tsx", "button", Some(plain_button())),
        file("/p/dist/foo.js", "foo", Some(foo_with_memo())),
        file("/p/notes.md", "notes", Some(plain_button())),
        file("/p/src/foo.tsx", "foo", Some(foo_with_memo())),
    ];
    let mut cache = IncrementalCache::<FileAnalysis>::new("unused", "0.6.0");
    let g = MetadataGraph::index_project(&files, &mut cache, 0);
    let keys: Vec<String> = g.component_snapshot().into_iter().map(|e| e.0).collect();
    assert_eq!(keys, vec!["/p/src/foo.tsx".to_string()]);
    assert!(g.import_snapshot().is_empty());
    assert_eq!(g.export_snapshot().len(), 1);
    assert_eq!(cache.stats().memory_entries, 1);
}
