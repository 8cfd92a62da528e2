//! The metadata model of components and their props.

use vstd::prelude::*;

use crate::extract::{
    copy_exports, copy_imports, exports_view, imports_view, ExportInfo, ExportView, ImportMeta,
    ImportView,
};

verus! {

#[derive(Clone, Copy, Debug, PartialEq, Eq, Structural)]
pub enum PropKind {
    Function,
    Object,
    Array,
    Primitive,
}

/// One parameter (or destructuring pattern) of a component.
#[derive(Clone, Debug)]
pub struct PropInfo {
    pub name: String,
    pub kind: PropKind,
    pub is_stable: bool,
    pub line: usize,
}

pub struct PropView {
    pub name: Seq<char>,
    pub kind: PropKind,
    pub is_stable: bool,
    pub line: usize,
}

impl View for PropInfo {
    type V = PropView;

    open spec fn view(&self) -> PropView {
        PropView { name: self.name@, kind: self.kind, is_stable: self.is_stable, line: self.line }
    }
}

pub open spec fn props_view(v: Seq<PropInfo>) -> Seq<PropView> {
    v.map_values(|p: PropInfo| p@)
}

impl PropInfo {
    pub fn duplicate(&self) -> (r: Self)
        ensures
            r@ == self@,
    {
        PropInfo {
            name: self.name.clone(),
            kind: self.kind,
            is_stable: self.is_stable,
            line: self.line,
        }
    }
}

pub fn copy_props(v: &Vec<PropInfo>) -> (r: Vec<PropInfo>)
    ensures
        props_view(r@) == props_view(v@),
{
    let mut r: Vec<PropInfo> = Vec::new();
    let mut i: usize = 0;
    while i < v.len()
        invariant
            i <= v@.len(),
            r@.len() == i,
            forall|j: int| 0 <= j < i ==> #[trigger] r@[j]@ == v@[j]@,
        decreases v@.len() - i,
    {
        r.push(v[i].duplicate());
        i = i + 1;
    }
    assert(props_view(r@) =~= props_view(v@));
    r
}

/// One recognized component declaration.
#[derive(Clone, Debug)]
pub struct ComponentMeta {
    pub name: String,
    pub file_path: String,
    pub is_memoized: bool,
    pub props: Vec<PropInfo>,
    pub exports: Vec<ExportInfo>,
    pub line: usize,
}

pub struct ComponentView {
    pub name: Seq<char>,
    pub file_path: Seq<char>,
    pub is_memoized: bool,
    pub props: Seq<PropView>,
    pub exports: Seq<ExportView>,
    pub line: usize,
}

impl View for ComponentMeta {
    type V = ComponentView;

    open spec fn view(&self) -> ComponentView {
        ComponentView {
            name: self.name@,
            file_path: self.file_path@,
            is_memoized: self.is_memoized,
            props: props_view(self.props@),
            exports: exports_view(self.exports@),
            line: self.line,
        }
    }
}

pub open spec fn components_view(v: Seq<ComponentMeta>) -> Seq<ComponentView> {
    v.map_values(|c: ComponentMeta| c@)
}

impl ComponentMeta {
    pub fn duplicate(&self) -> (r: Self)
        ensures
            r@ == self@,
    {
        ComponentMeta {
            name: self.name.clone(),
            file_path: self.file_path.clone(),
            is_memoized: self.is_memoized,
            props: copy_props(&self.props),
            exports: copy_exports(&self.exports),
            line: self.line,
        }
    }
}

pub fn copy_components(v: &Vec<ComponentMeta>) -> (r: Vec<ComponentMeta>)
    ensures
        components_view(r@) == components_view(v@),
{
    let mut r: Vec<ComponentMeta> = Vec::new();
    let mut i: usize = 0;
    while i < v.len()
        invariant
            i <= v@.len(),
            r@.len() == i,
            forall|j: int| 0 <= j < i ==> #[trigger] r@[j]@ == v@[j]@,
        decreases v@.len() - i,
    {
        r.push(v[i].duplicate());
        i = i + 1;
    }
    assert(components_view(r@) =~= components_view(v@));
    r
}

/// What extraction yields for one file: components, imports and exports, each
/// in the order the walk met them.
#[derive(Clone, Debug)]
pub struct FileAnalysis {
    pub components: Vec<ComponentMeta>,
    pub imports: Vec<ImportMeta>,
    pub exports: Vec<ExportInfo>,
}

pub struct AnalysisView {
    pub components: Seq<ComponentView>,
    pub imports: Seq<ImportView>,
    pub exports: Seq<ExportView>,
}

impl FileAnalysis {
    pub fn duplicate(&self) -> (r: Self)
        ensures
            r@ == self@,
    {
        FileAnalysis {
            components: copy_components(&self.components),
            imports: copy_imports(&self.imports),
            exports: copy_exports(&self.exports),
        }
    }
}

impl View for FileAnalysis {
    type V = AnalysisView;

    open spec fn view(&self) -> AnalysisView {
        AnalysisView {
            components: components_view(self.components@),
            imports: imports_view(self.imports@),
            exports: exports_view(self.exports@),
        }
    }
}

} // verus!
