//! Single-file extraction: one walk over a module's syntax tree that
//! records component candidates, import statements and exports.

use vstd::prelude::*;

use crate::metadata::{
    components_view, AnalysisView, ComponentMeta, ComponentView, FileAnalysis, PropInfo, PropKind,
    PropView, props_view,
};
use crate::syntax::{Callee, ExportedDecl, ImportBinding, Initializer, Module, Node, Pattern};

verus! {

broadcast use {vstd::string::axiom_spec_iter, vstd::string::next_postcondition};

#[derive(Clone, Copy, Debug, PartialEq, Eq, Structural)]
pub enum ExportKind {
    Named,
    Default,
}

/// One export of a file.
#[derive(Clone, Debug)]
pub struct ExportInfo {
    pub name: String,
    pub kind: ExportKind,
    pub line: usize,
}

pub struct ExportView {
    pub name: Seq<char>,
    pub kind: ExportKind,
    pub line: usize,
}

impl View for ExportInfo {
    type V = ExportView;

    open spec fn view(&self) -> ExportView {
        ExportView { name: self.name@, kind: self.kind, line: self.line }
    }
}

impl ExportInfo {
    pub fn duplicate(&self) -> (r: Self)
        ensures
            r@ == self@,
    {
        ExportInfo { name: self.name.clone(), kind: self.kind, line: self.line }
    }
}

pub open spec fn exports_view(v: Seq<ExportInfo>) -> Seq<ExportView> {
    v.map_values(|e: ExportInfo| e@)
}

pub fn copy_exports(v: &Vec<ExportInfo>) -> (r: Vec<ExportInfo>)
    ensures
        exports_view(r@) == exports_view(v@),
{
    let mut r: Vec<ExportInfo> = Vec::new();
    let mut i: usize = 0;
    while i < v.len()
        invariant
            i <= v@.len(),
            r@.len() == i,
            forall|j: int| 0 <= j < i ==> #[trigger] r@[j]@ == v@[j]@,
        decreases v@.len() - i,
    {
        r.push(v[i].duplicate());
        i = i + 1;
    }
    assert(exports_view(r@) =~= exports_view(v@));
    r
}

/// One binding of an import statement. `imported` is `"default"` for a
/// default import, `"*"` for a namespace import, and the exported name (or
/// `None` when the binding uses the same name) for a named import.
#[derive(Clone, Debug)]
pub struct ImportSpecifierMeta {
    pub local: String,
    pub imported: Option<String>,
}

pub struct SpecifierView {
    pub local: Seq<char>,
    pub imported: Option<Seq<char>>,
}

pub open spec fn opt_view(o: Option<String>) -> Option<Seq<char>> {
    match o {
        Some(s) => Some(s@),
        None => None,
    }
}

impl View for ImportSpecifierMeta {
    type V = SpecifierView;

    open spec fn view(&self) -> SpecifierView {
        SpecifierView { local: self.local@, imported: opt_view(self.imported) }
    }
}

pub fn copy_opt(o: &Option<String>) -> (r: Option<String>)
    ensures
        opt_view(r) == opt_view(*o),
{
    match o {
        Some(s) => Some(s.clone()),
        None => None,
    }
}

impl ImportSpecifierMeta {
    pub fn duplicate(&self) -> (r: Self)
        ensures
            r@ == self@,
    {
        ImportSpecifierMeta { local: self.local.clone(), imported: copy_opt(&self.imported) }
    }
}

pub open spec fn specifiers_view(v: Seq<ImportSpecifierMeta>) -> Seq<SpecifierView> {
    v.map_values(|s: ImportSpecifierMeta| s@)
}

pub fn copy_specifiers(v: &Vec<ImportSpecifierMeta>) -> (r: Vec<ImportSpecifierMeta>)
    ensures
        specifiers_view(r@) == specifiers_view(v@),
{
    let mut r: Vec<ImportSpecifierMeta> = Vec::new();
    let mut i: usize = 0;
    while i < v.len()
        invariant
            i <= v@.len(),
            r@.len() == i,
            forall|j: int| 0 <= j < i ==> #[trigger] r@[j]@ == v@[j]@,
        decreases v@.len() - i,
    {
        r.push(v[i].duplicate());
        i = i + 1;
    }
    assert(specifiers_view(r@) =~= specifiers_view(v@));
    r
}

/// One import statement.
#[derive(Clone, Debug)]
pub struct ImportMeta {
    pub source: String,
    pub specifiers: Vec<ImportSpecifierMeta>,
    pub line: usize,
}

pub struct ImportView {
    pub source: Seq<char>,
    pub specifiers: Seq<SpecifierView>,
    pub line: usize,
}

impl View for ImportMeta {
    type V = ImportView;

    open spec fn view(&self) -> ImportView {
        ImportView {
            source: self.source@,
            specifiers: specifiers_view(self.specifiers@),
            line: self.line,
        }
    }
}

impl ImportMeta {
    pub fn duplicate(&self) -> (r: Self)
        ensures
            r@ == self@,
    {
        ImportMeta {
            source: self.source.clone(),
            specifiers: copy_specifiers(&self.specifiers),
            line: self.line,
        }
    }
}

pub open spec fn imports_view(v: Seq<ImportMeta>) -> Seq<ImportView> {
    v.map_values(|m: ImportMeta| m@)
}

pub fn copy_imports(v: &Vec<ImportMeta>) -> (r: Vec<ImportMeta>)
    ensures
        imports_view(r@) == imports_view(v@),
{
    let mut r: Vec<ImportMeta> = Vec::new();
    let mut i: usize = 0;
    while i < v.len()
        invariant
            i <= v@.len(),
            r@.len() == i,
            forall|j: int| 0 <= j < i ==> #[trigger] r@[j]@ == v@[j]@,
        decreases v@.len() - i,
    {
        r.push(v[i].duplicate());
        i = i + 1;
    }
    assert(imports_view(r@) =~= imports_view(v@));
    r
}

/// Whether `c` has the Unicode `Uppercase` property.
pub uninterp spec fn is_uppercase_char(c: char) -> bool;

/// Relies on `char::is_uppercase`: the character's Unicode `Uppercase` property.
#[verifier::external_body]
fn char_is_uppercase(c: char) -> (r: bool)
    ensures
        r == is_uppercase_char(c),
{
    c.is_uppercase()
}

/// The naming heuristic for components: the first character is uppercase.
pub open spec fn starts_upper(s: Seq<char>) -> bool {
    s.len() > 0 && is_uppercase_char(s[0])
}

pub fn starts_with_uppercase(s: &String) -> (r: bool)
    ensures
        r == starts_upper(s@),
{
    let mut chars = s.as_str().chars();
    match chars.next() {
        Some(c) => char_is_uppercase(c),
        None => false,
    }
}

/// The specifier recorded for an import binding: a default import is
/// recorded as importing `"default"`, a namespace import as importing `"*"`.
pub open spec fn specifier_of(b: ImportBinding) -> SpecifierView {
    match b {
        ImportBinding::Named { local, imported } => SpecifierView {
            local: local@,
            imported: opt_view(imported),
        },
        ImportBinding::Default { local } => SpecifierView {
            local: local@,
            imported: Some("default"@),
        },
        ImportBinding::Namespace { local } => SpecifierView {
            local: local@,
            imported: Some("*"@),
        },
    }
}

pub open spec fn specifiers_of(bindings: Seq<ImportBinding>) -> Seq<SpecifierView> {
    bindings.map_values(|b: ImportBinding| specifier_of(b))
}

/// The prop that a parameter pattern stands for.
pub open spec fn prop_of(p: Pattern) -> PropView {
    match p {
        Pattern::Ident { name, line } => PropView {
            name: name@,
            kind: PropKind::Primitive,
            is_stable: true,
            line,
        },
        Pattern::Object { line } => PropView {
            name: "props"@,
            kind: PropKind::Object,
            is_stable: false,
            line,
        },
        Pattern::Array { line } => PropView {
            name: "props"@,
            kind: PropKind::Array,
            is_stable: false,
            line,
        },
        Pattern::Other { line } => PropView {
            name: "arg"@,
            kind: PropKind::Primitive,
            is_stable: true,
            line,
        },
    }
}

pub open spec fn props_of(params: Seq<Pattern>) -> Seq<PropView> {
    params.map_values(|p: Pattern| prop_of(p))
}

/// A fresh component record as the extractor creates it: no file path and
/// no exports yet (the indexer attaches both).
pub open spec fn new_component(
    name: Seq<char>,
    memoized: bool,
    props: Seq<PropView>,
    line: usize,
) -> ComponentView {
    ComponentView {
        name,
        file_path: Seq::empty(),
        is_memoized: memoized,
        props,
        exports: Seq::empty(),
        line,
    }
}

/// A recognized memoization wrapper: `React.memo` or a bare `memo`.
pub open spec fn is_memo_callee(c: Callee) -> bool {
    match c {
        Callee::Ident { name } => name@ == "memo"@,
        Callee::Member { object, property } => opt_view(object) == Some("React"@) && opt_view(
            property,
        ) == Some("memo"@),
        Callee::Other => false,
    }
}

/// `i` is the first position of a component named `name`.
pub open spec fn is_first_named(comps: Seq<ComponentView>, name: Seq<char>, i: int) -> bool {
    &&& 0 <= i < comps.len()
    &&& comps[i].name == name
    &&& forall|j: int| 0 <= j < i ==> (#[trigger] comps[j]).name != name
}

/// Memoization linking: the first component named `name` becomes memoized;
/// without one, a memoized record with no props is added.
pub open spec fn link_memo(comps: Seq<ComponentView>, name: Seq<char>, line: usize) -> Seq<
    ComponentView,
> {
    if exists|i: int| is_first_named(comps, name, i) {
        let i = choose|i: int| is_first_named(comps, name, i);
        comps.update(i, ComponentView { is_memoized: true, ..comps[i] })
    } else {
        comps.push(new_component(name, true, Seq::empty(), line))
    }
}

pub open spec fn with_components(st: AnalysisView, comps: Seq<ComponentView>) -> AnalysisView {
    AnalysisView { components: comps, imports: st.imports, exports: st.exports }
}

/// What a variable declarator `name = init` adds.
pub open spec fn declare(
    st: AnalysisView,
    name: Option<String>,
    line: usize,
    init: Option<Initializer>,
) -> AnalysisView {
    match (name, init) {
        (Some(n), Some(Initializer::Call { callee, first_arg })) => {
            if is_memo_callee(callee) && first_arg is Some {
                with_components(st, link_memo(st.components, first_arg->0@, line))
            } else {
                st
            }
        },
        (Some(n), Some(Initializer::Function)) => {
            if starts_upper(n@) {
                with_components(
                    st,
                    st.components.push(new_component(n@, false, Seq::empty(), line)),
                )
            } else {
                st
            }
        },
        _ => st,
    }
}

/// Named exports of the plainly named bindings of an exported variable list.
pub open spec fn named_exports(names: Seq<Option<String>>, line: usize) -> Seq<ExportView>
    decreases names.len(),
{
    if names.len() == 0 {
        Seq::empty()
    } else {
        let rest = named_exports(names.drop_last(), line);
        match names.last() {
            Some(n) => rest.push(ExportView { name: n@, kind: ExportKind::Named, line }),
            None => rest,
        }
    }
}

/// The exports that an `export` declaration contributes.
pub open spec fn exported(decl: ExportedDecl, line: usize) -> Seq<ExportView> {
    match decl {
        ExportedDecl::Function { name } => seq![
            ExportView { name: name@, kind: ExportKind::Named, line },
        ],
        ExportedDecl::Variables { names } => named_exports(names@, line),
        ExportedDecl::Other => Seq::empty(),
    }
}

/// The walk's effect at one node, its descendants included. An export
/// statement's exports are recorded before the walk enters its declaration.
pub open spec fn walk_node(st: AnalysisView, n: Node) -> AnalysisView
    decreases n,
{
    match n {
        Node::FnDecl { name, line, params, children } => {
            let st1 = if starts_upper(name@) {
                with_components(
                    st,
                    st.components.push(new_component(name@, false, props_of(params@), line)),
                )
            } else {
                st
            };
            walk_nodes(st1, children@)
        },
        Node::VarDecl { name, line, init, children } => walk_nodes(
            declare(st, name, line, init),
            children@,
        ),
        Node::Import { source, bindings, line } => AnalysisView {
            components: st.components,
            imports: st.imports.push(
                ImportView { source: source@, specifiers: specifiers_of(bindings@), line },
            ),
            exports: st.exports,
        },
        Node::ExportDecl { decl, line, children } => walk_nodes(
            AnalysisView {
                components: st.components,
                imports: st.imports,
                exports: st.exports + exported(decl, line),
            },
            children@,
        ),
        Node::ExportDefaultExpr { line, children } => walk_nodes(
            AnalysisView {
                components: st.components,
                imports: st.imports,
                exports: st.exports.push(
                    ExportView { name: "default"@, kind: ExportKind::Default, line },
                ),
            },
            children@,
        ),
        Node::Other { children } => walk_nodes(st, children@),
    }
}

/// The walk over a sequence of sibling nodes, in order.
pub open spec fn walk_nodes(st: AnalysisView, ns: Seq<Node>) -> AnalysisView
    decreases ns,
{
    if ns.len() == 0 {
        st
    } else {
        walk_node(walk_nodes(st, ns.drop_last()), ns.last())
    }
}

pub open spec fn empty_analysis() -> AnalysisView {
    AnalysisView { components: Seq::empty(), imports: Seq::empty(), exports: Seq::empty() }
}

/// The result of extraction on a parse outcome: nothing for a file that did
/// not parse, else the walk over the module's top-level statements.
pub open spec fn extraction_of(tree: Option<Module>) -> AnalysisView {
    match tree {
        Some(m) => walk_nodes(empty_analysis(), m.body@),
        None => empty_analysis(),
    }
}

fn literal(s: &str) -> (r: String)
    ensures
        r@ == s@,
{
    s.to_owned()
}

fn prop_for(p: &Pattern) -> (r: PropInfo)
    ensures
        r@ == prop_of(*p),
{
    match p {
        Pattern::Ident { name, line } => PropInfo {
            name: name.clone(),
            kind: PropKind::Primitive,
            is_stable: true,
            line: *line,
        },
        Pattern::Object { line } => PropInfo {
            name: literal("props"),
            kind: PropKind::Object,
            is_stable: false,
            line: *line,
        },
        Pattern::Array { line } => PropInfo {
            name: literal("props"),
            kind: PropKind::Array,
            is_stable: false,
            line: *line,
        },
        Pattern::Other { line } => PropInfo {
            name: literal("arg"),
            kind: PropKind::Primitive,
            is_stable: true,
            line: *line,
        },
    }
}

fn specifier_for(b: &ImportBinding) -> (r: ImportSpecifierMeta)
    ensures
        r@ == specifier_of(*b),
{
    match b {
        ImportBinding::Named { local, imported } => ImportSpecifierMeta {
            local: local.clone(),
            imported: copy_opt(imported),
        },
        ImportBinding::Default { local } => ImportSpecifierMeta {
            local: local.clone(),
            imported: Some(literal("default")),
        },
        ImportBinding::Namespace { local } => ImportSpecifierMeta {
            local: local.clone(),
            imported: Some(literal("*")),
        },
    }
}

/// The specifiers of an import statement, one per binding, in order.
pub fn import_specifiers(bindings: &Vec<ImportBinding>) -> (r: Vec<ImportSpecifierMeta>)
    ensures
        specifiers_view(r@) == specifiers_of(bindings@),
{
    let mut r: Vec<ImportSpecifierMeta> = Vec::new();
    let mut i: usize = 0;
    while i < bindings.len()
        invariant
            i <= bindings@.len(),
            r@.len() == i,
            forall|j: int| 0 <= j < i ==> #[trigger] r@[j]@ == specifier_of(bindings@[j]),
        decreases bindings@.len() - i,
    {
        r.push(specifier_for(&bindings[i]));
        i = i + 1;
    }
    assert(specifiers_view(r@) =~= specifiers_of(bindings@));
    r
}

/// The props of a function declaration, one per parameter, in order.
pub fn params_to_props(params: &Vec<Pattern>) -> (r: Vec<PropInfo>)
    ensures
        props_view(r@) == props_of(params@),
{
    let mut r: Vec<PropInfo> = Vec::new();
    let mut i: usize = 0;
    while i < params.len()
        invariant
            i <= params@.len(),
            r@.len() == i,
            forall|j: int| 0 <= j < i ==> #[trigger] r@[j]@ == prop_of(params@[j]),
        decreases params@.len() - i,
    {
        r.push(prop_for(&params[i]));
        i = i + 1;
    }
    assert(props_view(r@) =~= props_of(params@));
    r
}

fn opt_is(o: &Option<String>, s: &str) -> (r: bool)
    ensures
        r == (opt_view(*o) == Some(s@)),
{
    match o {
        Some(v) => *v == literal(s),
        None => false,
    }
}

/// Whether a callee is `React.memo` or `memo`.
pub fn is_identifier_react_memo(c: &Callee) -> (r: bool)
    ensures
        r == is_memo_callee(*c),
{
    match c {
        Callee::Ident { name } => *name == literal("memo"),
        Callee::Member { object, property } => opt_is(object, "React") && opt_is(property, "memo"),
        Callee::Other => false,
    }
}

fn fresh_component(name: String, memoized: bool, props: Vec<PropInfo>, line: usize) -> (r:
    ComponentMeta)
    ensures
        r@ == new_component(name@, memoized, props_view(props@), line),
{
    let r = ComponentMeta {
        name,
        file_path: String::new(),
        is_memoized: memoized,
        props,
        exports: Vec::new(),
        line,
    };
    assert(r.exports@ =~= Seq::<ExportInfo>::empty());
    assert(exports_view(r.exports@) =~= Seq::<ExportView>::empty());
    r
}

fn no_props() -> (r: Vec<PropInfo>)
    ensures
        props_view(r@) == Seq::<PropView>::empty(),
{
    let r: Vec<PropInfo> = Vec::new();
    assert(props_view(r@) =~= Seq::<PropView>::empty());
    r
}

fn push_component(comps: &mut Vec<ComponentMeta>, c: ComponentMeta)
    ensures
        components_view(final(comps)@) == components_view(old(comps)@).push(c@),
{
    comps.push(c);
    assert(components_view(comps@) =~= components_view(old(comps)@).push(c@));
}

fn link_memo_exec(comps: &mut Vec<ComponentMeta>, name: &String, line: usize)
    ensures
        components_view(final(comps)@) == link_memo(components_view(old(comps)@), name@, line),
{
    let ghost cv = components_view(comps@);
    let mut i: usize = 0;
    let mut found = false;
    while i < comps.len() && !found
        invariant
            comps@ == old(comps)@,
            cv == components_view(comps@),
            i <= comps@.len(),
            found ==> i < comps@.len() && comps@[i as int].name@ == name@,
            forall|j: int| 0 <= j < i ==> (#[trigger] comps@[j]).name@ != name@,
        decreases comps@.len() - i + (if found { 0int } else { 1int }),
    {
        if comps[i].name == *name {
            found = true;
        } else {
            i = i + 1;
        }
    }
    if found {
        assert(is_first_named(cv, name@, i as int)) by {
            assert forall|j: int| 0 <= j < i implies (#[trigger] cv[j]).name != name@ by {
                assert(cv[j].name == comps@[j].name@);
            }
        }
        let ghost k = choose|k: int| is_first_named(cv, name@, k);
        assert(k == i) by {
            if k < i {
                assert(cv[k].name == comps@[k].name@);
            } else if k > i {
                assert(cv[i as int].name != name@);
            }
        }
        let mut c = comps.remove(i);
        c.is_memoized = true;
        comps.insert(i, c);
        assert(components_view(comps@) =~= cv.update(
            i as int,
            ComponentView { is_memoized: true, ..cv[i as int] },
        ));
    } else {
        assert(!exists|k: int| is_first_named(cv, name@, k)) by {
            if exists|k: int| is_first_named(cv, name@, k) {
                let k = choose|k: int| is_first_named(cv, name@, k);
                assert(cv[k].name == comps@[k].name@);
            }
        }
        let c = fresh_component(name.clone(), true, no_props(), line);
        push_component(comps, c);
    }
}

fn push_named_exports(
    exports: &mut Vec<ExportInfo>,
    names: &Vec<Option<String>>,
    line: usize,
)
    ensures
        exports_view(final(exports)@) == exports_view(old(exports)@) + named_exports(names@, line),
{
    let mut i: usize = 0;
    while i < names.len()
        invariant
            i <= names@.len(),
            exports_view(exports@) == exports_view(old(exports)@) + named_exports(
                names@.subrange(0, i as int),
                line,
            ),
        decreases names@.len() - i,
    {
        let ghost before = exports_view(exports@);
        assert(names@.subrange(0, i + 1).drop_last() =~= names@.subrange(0, i as int));
        match &names[i] {
            Some(n) => {
                let e = ExportInfo { name: n.clone(), kind: ExportKind::Named, line };
                exports.push(e);
                assert(exports_view(exports@) =~= before.push(e@));
            },
            None => {},
        }
        i = i + 1;
        assert(exports_view(exports@) =~= exports_view(old(exports)@) + named_exports(
            names@.subrange(0, i as int),
            line,
        ));
    }
    assert(names@.subrange(0, names@.len() as int) =~= names@);
}

fn push_export(exports: &mut Vec<ExportInfo>, e: ExportInfo)
    ensures
        exports_view(final(exports)@) == exports_view(old(exports)@).push(e@),
{
    exports.push(e);
    assert(exports_view(exports@) =~= exports_view(old(exports)@).push(e@));
}

fn visit_declarator(
    out: &mut FileAnalysis,
    name: &Option<String>,
    line: usize,
    init: &Option<Initializer>,
)
    ensures
        final(out)@ == declare(old(out)@, *name, line, *init),
{
    match (name, init) {
        (Some(n), Some(Initializer::Call { callee, first_arg })) => {
            if is_identifier_react_memo(callee) {
                match first_arg {
                    Some(target) => link_memo_exec(&mut out.components, target, line),
                    None => {},
                }
            }
        },
        (Some(n), Some(Initializer::Function)) => {
            if starts_with_uppercase(n) {
                let c = fresh_component(n.clone(), false, no_props(), line);
                        push_component(&mut out.components, c);
            }
        },
        _ => {},
    }
}

fn visit_node(out: &mut FileAnalysis, n: &Node)
    ensures
        final(out)@ == walk_node(old(out)@, *n),
    decreases n,
{
    match n {
        Node::FnDecl { name, line, params, children } => {
            if starts_with_uppercase(name) {
                let props = params_to_props(params);
                let c = fresh_component(name.clone(), false, props, *line);
                push_component(&mut out.components, c);
            }
            visit_nodes(out, children);
        },
        Node::VarDecl { name, line, init, children } => {
            visit_declarator(out, name, *line, init);
            visit_nodes(out, children);
        },
        Node::Import { source, bindings, line } => {
            let m = ImportMeta {
                source: source.clone(),
                specifiers: import_specifiers(bindings),
                line: *line,
            };
            let ghost before = imports_view(out.imports@);
            out.imports.push(m);
            assert(imports_view(out.imports@) =~= before.push(m@));
        },
        Node::ExportDecl { decl, line, children } => {
            let ghost before = exports_view(out.exports@);
            match decl {
                ExportedDecl::Function { name } => {
                    push_export(
                        &mut out.exports,
                        ExportInfo { name: name.clone(), kind: ExportKind::Named, line: *line },
                    );
                },
                ExportedDecl::Variables { names } => {
                    push_named_exports(&mut out.exports, names, *line);
                },
                ExportedDecl::Other => {},
            }
            assert(exports_view(out.exports@) =~= before + exported(*decl, *line));
            visit_nodes(out, children);
        },
        Node::ExportDefaultExpr { line, children } => {
            push_export(
                &mut out.exports,
                ExportInfo { name: literal("default"), kind: ExportKind::Default, line: *line },
            );
            visit_nodes(out, children);
        },
        Node::Other { children } => {
            visit_nodes(out, children);
        },
    }
}

fn visit_nodes(out: &mut FileAnalysis, ns: &Vec<Node>)
    ensures
        final(out)@ == walk_nodes(old(out)@, ns@),
    decreases ns,
{
    let mut i: usize = 0;
    while i < ns.len()
        invariant
            i <= ns@.len(),
            out@ == walk_nodes(old(out)@, ns@.subrange(0, i as int)),
        decreases ns@.len() - i,
    {
        assert(ns@.subrange(0, i + 1).drop_last() =~= ns@.subrange(0, i as int));
        visit_node(out, &ns[i]);
        i = i + 1;
    }
    assert(ns@.subrange(0, ns@.len() as int) =~= ns@);
}

fn empty_file_analysis() -> (r: FileAnalysis)
    ensures
        r@ == empty_analysis(),
{
    let r = FileAnalysis { components: Vec::new(), imports: Vec::new(), exports: Vec::new() };
    assert(r@.components =~= Seq::<ComponentView>::empty());
    assert(r@.imports =~= Seq::<ImportView>::empty());
    assert(r@.exports =~= Seq::<ExportView>::empty());
    r
}

/// Extracts components, imports and exports from one parsed file. A file
/// that did not parse (`None`) yields three empty lists.
pub fn extract_all(tree: &Option<Module>) -> (r: FileAnalysis)
    ensures
        r@ == extraction_of(*tree),
{
    let mut out = empty_file_analysis();
    match tree {
        Some(m) => visit_nodes(&mut out, &m.body),
        None => {},
    }
    out
}

/// Memoization linking: once a component named `target` is recorded, a
/// declaration `NAME = React.memo(target)` (or `memo(target)`) marks the first
/// record of that name memoized, adds no record, and changes nothing else.
pub proof fn lemma_memo_links_recorded(
    st: AnalysisView,
    name: String,
    line: usize,
    callee: Callee,
    target: String,
    i: int,
)
    requires
        is_memo_callee(callee),
        0 <= i < st.components.len(),
        st.components[i].name == target@,
    ensures
        ({
            let after = declare(
                st,
                Some(name),
                line,
                Some(Initializer::Call { callee, first_arg: Some(target) }),
            );
            &&& after.components.len() == st.components.len()
            &&& exists|j: int|
                0 <= j <= i && (#[trigger] after.components[j]).name == target@
                    && after.components[j].is_memoized
            &&& after.imports == st.imports
            &&& after.exports == st.exports
        }),
{
    let comps = st.components;
    lemma_first_named_exists(comps, target@, i);
    let k = choose|k: int| is_first_named(comps, target@, k);
    assert(link_memo(comps, target@, line)[k].name == target@);
}

proof fn lemma_first_named_exists(comps: Seq<ComponentView>, name: Seq<char>, i: int)
    requires
        0 <= i < comps.len(),
        comps[i].name == name,
    ensures
        exists|k: int| 0 <= k <= i && is_first_named(comps, name, k),
    decreases i,
{
    if exists|j: int| 0 <= j < i && (#[trigger] comps[j]).name == name {
        let j = choose|j: int| 0 <= j < i && (#[trigger] comps[j]).name == name;
        lemma_first_named_exists(comps, name, j);
    } else {
        assert(is_first_named(comps, name, i));
    }
}

/// Extraction depends on the tree alone: two runs on the same tree give the
/// same components, imports and exports, in the same order.
pub proof fn lemma_extraction_deterministic(
    t1: Option<Module>,
    t2: Option<Module>,
    r1: FileAnalysis,
    r2: FileAnalysis,
)
    requires
        t1 == t2,
        r1@ == extraction_of(t1),
        r2@ == extraction_of(t2),
    ensures
        r1@ == r2@,
{
}

} // verus!
