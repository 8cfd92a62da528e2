use perf_linter_core::extract::{extract_all, is_identifier_react_memo, params_to_props, starts_with_uppercase, ExportKind};
use perf_linter_core::metadata::PropKind;
use perf_linter_core::syntax::{Callee, ExportedDecl, ImportBinding, Initializer, Module, Node, Pattern};

fn function(name: &str, line: usize, params: Vec<Pattern>, children: Vec<Node>) -> Node {
    Node::FnDecl { name: name.to_string(), line, params, children }
}

fn arrow_const(name: &str, line: usize) -> Node {
    Node::VarDecl { name: Some(name.to_string()), line, init: Some(Initializer::Function), children: vec![] }
}

fn react_memo_const(name: &str, target: &str, line: usize) -> Node {
    Node::VarDecl {
        name: Some(name.to_string()),
        line,
        init: Some(Initializer::Call {
            callee: Callee::Member { object: Some("React".to_string()), property: Some("memo".to_string()) },
            first_arg: Some(target.to_string()),
        }),
        children: vec![],
    }
}

#[test]
fn function_declaration_is_a_component() {
    // function Button(props) {}
    let tree = Module { body: vec![function("Button", 1, vec![Pattern::Ident { name: "props".to_string(), line: 1 }], vec![])] };
    let a = extract_all(&Some(tree));
    assert_eq!(a.components.len(), 1);
    let c = &a.components[0];
    assert_eq!(c.name, "Button");
    assert!(!c.is_memoized);
    assert_eq!(c.file_path, "");
    assert_eq!(c.line, 1);
    assert_eq!(c.props.len(), 1);
    assert_eq!(c.props[0].name, "props");
    assert_eq!(c.props[0].kind, PropKind::Primitive);
    assert!(c.props[0].is_stable);
    assert!(a.imports.is_empty());
    assert!(a.exports.is_empty());
}

#[test]
fn lowercase_function_is_not_a_component() {
    let tree = Module { body: vec![function("button", 1, vec![], vec![]), arrow_const("helper", 2)] };
    let a = extract_all(&Some(tree));
    assert!(a.components.is_empty());
    assert!(starts_with_uppercase(&"Button".to_string()));
    assert!(!starts_with_uppercase(&"button".to_string()));
    assert!(!starts_with_uppercase(&String::new()));
}

#[test]
fn arrow_component_and_default_export() {
    // const Button = () => {}; export default Button;
    let tree = Module { body: vec![arrow_const("Button", 1), Node::ExportDefaultExpr { line: 1, children: vec![] }] };
    let a = extract_all(&Some(tree));
    assert_eq!(a.components.len(), 1);
    assert_eq!(a.components[0].name, "Button");
    assert!(a.components[0].props.is_empty());
    assert_eq!(a.exports.len(), 1);
    assert_eq!(a.exports[0].name, "default");
    assert_eq!(a.exports[0].kind, ExportKind::Default);
}

#[test]
fn named_exports_of_declarations() {
    // export const Button = () => {}, [a] = x; export function Card() {}; export class K {}
    let tree = Module {
        body: vec![
            Node::ExportDecl { decl: ExportedDecl::Variables { names: vec![Some("Button".to_string()), None] }, line: 1, children: vec![] },
            Node::ExportDecl { decl: ExportedDecl::Function { name: "Card".to_string() }, line: 2, children: vec![] },
            Node::ExportDecl { decl: ExportedDecl::Other, line: 3, children: vec![] },
        ],
    };
    let a = extract_all(&Some(tree));
    assert_eq!(a.exports.len(), 2);
    assert_eq!(a.exports[0].name, "Button");
    assert_eq!(a.exports[0].kind, ExportKind::Named);
    assert_eq!(a.exports[0].line, 1);
    assert_eq!(a.exports[1].name, "Card");
    assert_eq!(a.exports[1].line, 2);
}

#[test]
fn memo_links_recorded_component() {
    // function Foo() {}; const Memoized = React.memo(Foo);
    let tree = Module { body: vec![function("Foo", 1, vec![], vec![]), react_memo_const("Memoized", "Foo", 2)] };
    let a = extract_all(&Some(tree));
    assert_eq!(a.components.len(), 1);
    assert_eq!(a.components[0].name, "Foo");
    assert!(a.components[0].is_memoized);
}

#[test]
fn memo_of_unknown_name_adds_memoized_record() {
    let tree = Module {
        body: vec![Node::VarDecl {
            name: Some("M".to_string()),
            line: 4,
            init: Some(Initializer::Call { callee: Callee::Ident { name: "memo".to_string() }, first_arg: Some("Elsewhere".to_string()) }),
            children: vec![],
        }],
    };
    let a = extract_all(&Some(tree));
    assert_eq!(a.components.len(), 1);
    assert_eq!(a.components[0].name, "Elsewhere");
    assert!(a.components[0].is_memoized);
    assert!(a.components[0].props.is_empty());
    assert_eq!(a.components[0].line, 4);
}

#[test]
fn other_calls_and_inline_memo_are_ignored() {
    let tree = Module {
        body: vec![
            Node::VarDecl {
                name: Some("A".to_string()),
                line: 1,
                init: Some(Initializer::Call { callee: Callee::Ident { name: "useMemo".to_string() }, first_arg: Some("B".to_string()) }),
                children: vec![],
            },
            Node::VarDecl {
                name: Some("C".to_string()),
                line: 2,
                init: Some(Initializer::Call {
                    callee: Callee::Member { object: Some("React".to_string()), property: Some("memo".to_string()) },
                    first_arg: None,
                }),
                children: vec![],
            },
        ],
    };
    let a = extract_all(&Some(tree));
    assert!(a.components.is_empty());
}

#[test]
fn memo_callee_recognition() {
    assert!(is_identifier_react_memo(&Callee::Ident { name: "memo".to_string() }));
    assert!(is_identifier_react_memo(&Callee::Member { object: Some("React".to_string()), property: Some("memo".to_string()) }));
    assert!(!is_identifier_react_memo(&Callee::Member { object: Some("Preact".to_string()), property: Some("memo".to_string()) }));
    assert!(!is_identifier_react_memo(&Callee::Member { object: Some("React".to_string()), property: None }));
    assert!(!is_identifier_react_memo(&Callee::Ident { name: "memoize".to_string() }));
    assert!(!is_identifier_react_memo(&Callee::Other));
}

#[test]
fn parameter_patterns_become_props() {
    let props = params_to_props(&vec![
        Pattern::Ident { name: "title".to_string(), line: 3 },
        Pattern::Object { line: 4 },
        Pattern::Array { line: 5 },
        Pattern::Other { line: 6 },
    ]);
    assert_eq!(props.len(), 4);
    assert_eq!((props[0].name.as_str(), props[0].kind, props[0].is_stable, props[0].line), ("title", PropKind::Primitive, true, 3));
    assert_eq!((props[1].name.as_str(), props[1].kind, props[1].is_stable, props[1].line), ("props", PropKind::Object, false, 4));
    assert_eq!((props[2].name.as_str(), props[2].kind, props[2].is_stable, props[2].line), ("props", PropKind::Array, false, 5));
    assert_eq!((props[3].name.as_str(), props[3].kind, props[3].is_stable, props[3].line), ("arg", PropKind::Primitive, true, 6));
}

#[test]
fn imports_keep_specifiers_in_order() {
    // import React, { useState, memo as m } from "react"; import * as NS from "ns";
    let bindings = vec![
        ImportBinding::Default { local: "React".to_string() },
        ImportBinding::Named { local: "useState".to_string(), imported: None },
        ImportBinding::Named { local: "m".to_string(), imported: Some("memo".to_string()) },
    ];
    let ns = vec![ImportBinding::Namespace { local: "NS".to_string() }];
    let tree = Module {
        body: vec![
            Node::Import { source: "react".to_string(), bindings, line: 1 },
            Node::Import { source: "ns".to_string(), bindings: ns, line: 2 },
        ],
    };
    let a = extract_all(&Some(tree));
    assert_eq!(a.imports.len(), 2);
    let m = &a.imports[0];
    assert_eq!(m.source, "react");
    assert_eq!(m.line, 1);
    assert_eq!(m.specifiers.len(), 3);
    assert_eq!(m.specifiers[0].local, "React");
    assert_eq!(m.specifiers[0].imported.as_deref(), Some("default"));
    assert_eq!(m.specifiers[1].local, "useState");
    assert_eq!(m.specifiers[1].imported, None);
    assert_eq!(m.specifiers[2].local, "m");
    assert_eq!(m.specifiers[2].imported.as_deref(), Some("memo"));
    let n = &a.imports[1];
    assert_eq!(n.source, "ns");
    assert_eq!(n.specifiers[0].local, "NS");
    assert_eq!(n.specifiers[0].imported.as_deref(), Some("*"));
}

#[test]
fn nested_declarations_are_found() {
    let inner = function("Inner", 2, vec![], vec![]);
    let tree = Module {
        body: vec![
            function("Outer", 1, vec![], vec![inner]),
            Node::Other { children: vec![arrow_const("Deep", 5)] },
        ],
    };
    let a = extract_all(&Some(tree));
    let names: Vec<&str> = a.components.iter().map(|c| c.name.as_str()).collect();
    assert_eq!(names, vec!["Outer", "Inner", "Deep"]);
}

#[test]
fn unparsed_file_yields_nothing() {
    let a = extract_all(&None);
    assert!(a.components.is_empty());
    assert!(a.imports.is_empty());
    assert!(a.exports.is_empty());
}

#[test]
fn extraction_is_deterministic() {
    let make = || Module {
        body: vec![
            function("A", 1, vec![Pattern::Object { line: 1 }], vec![]),
            react_memo_const("B", "A", 2),
            Node::ExportDefaultExpr { line: 3, children: vec![] },
        ],
    };
    let a = extract_all(&Some(make()));
    let b = extract_all(&Some(make()));
    assert_eq!(format!("{:?}", a), format!("{:?}", b));
}

#[test]
fn exported_declarations_are_components() {
    // export function Button(props) {}; export const Card = () => {}; export default function () { function Inner() {} }
    let tree = Module {
        body: vec![
            Node::ExportDecl {
                decl: ExportedDecl::Function { name: "Button".to_string() },
                line: 1,
                children: vec![function("Button", 1, vec![Pattern::Ident { name: "props".to_string(), line: 1 }], vec![])],
            },
            Node::ExportDecl {
                decl: ExportedDecl::Variables { names: vec![Some("Card".to_string())] },
                line: 2,
                children: vec![arrow_const("Card", 2)],
            },
            Node::ExportDefaultExpr { line: 3, children: vec![function("Inner", 3, vec![], vec![])] },
        ],
    };
    let a = extract_all(&Some(tree));
    let names: Vec<&str> = a.components.iter().map(|c| c.name.as_str()).collect();
    assert_eq!(names, vec!["Button", "Card", "Inner"]);
    assert_eq!(a.components[0].props.len(), 1);
    let exports: Vec<&str> = a.exports.iter().map(|e| e.name.as_str()).collect();
    assert_eq!(exports, vec!["Button", "Card", "default"]);
}
