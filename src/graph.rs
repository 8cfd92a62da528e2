//! The project-wide metadata graph: per-file components, imports and exports
//! held in concurrent maps keyed by file path, and the queries over them.

use dashmap::DashMap;
use vstd::prelude::*;

use crate::cache::{cached, stored, CacheEntry, IncrementalCache};
use crate::extract::{
    copy_exports, copy_imports, exports_view, extract_all, extraction_of, imports_view, ExportInfo,
    ExportView, ImportMeta, ImportView,
};
use crate::metadata::{AnalysisView, ComponentMeta, ComponentView, FileAnalysis};
use crate::paths::{in_denied_dir, is_source_path, is_source_path_spec};
use crate::syntax::Module;

verus! {

#[verifier::external_type_specification]
#[verifier::external_body]
#[verifier::reject_recursive_types(K)]
#[verifier::reject_recursive_types(V)]
#[verifier::reject_recursive_types(S)]
pub struct ExDashMap<K, V, S>(DashMap<K, V, S>);

/// What a component map holds, by file path.
pub uninterp spec fn component_entries(m: DashMap<String, ComponentMeta>) -> Map<
    Seq<char>,
    ComponentView,
>;

/// What an import map holds, by file path.
pub uninterp spec fn import_entries(m: DashMap<String, Vec<ImportMeta>>) -> Map<
    Seq<char>,
    Seq<ImportView>,
>;

/// What an export map holds, by file path.
pub uninterp spec fn export_entries(m: DashMap<String, Vec<ExportInfo>>) -> Map<
    Seq<char>,
    Seq<ExportView>,
>;

/// Relies on `DashMap::new`: the map starts empty.
#[verifier::external_body]
fn new_component_map() -> (fresh: DashMap<String, ComponentMeta>)
    ensures
        component_entries(fresh).dom() == Set::<Seq<char>>::empty(),
{
    DashMap::new()
}

/// Relies on `DashMap::new`: the map starts empty.
#[verifier::external_body]
fn new_import_map() -> (fresh: DashMap<String, Vec<ImportMeta>>)
    ensures
        import_entries(fresh).dom() == Set::<Seq<char>>::empty(),
{
    DashMap::new()
}

/// Relies on `DashMap::new`: the map starts empty.
#[verifier::external_body]
fn new_export_map() -> (fresh: DashMap<String, Vec<ExportInfo>>)
    ensures
        export_entries(fresh).dom() == Set::<Seq<char>>::empty(),
{
    DashMap::new()
}

/// Relies on `DashMap::insert`: the key's value is replaced or added.
#[verifier::external_body]
fn insert_component(m: &mut DashMap<String, ComponentMeta>, k: String, v: ComponentMeta)
    ensures
        component_entries(*final(m)) == component_entries(*old(m)).insert(k@, v@),
{
    m.insert(k, v);
}

/// Relies on `DashMap::insert`: the key's value is replaced or added.
#[verifier::external_body]
fn insert_imports(m: &mut DashMap<String, Vec<ImportMeta>>, k: String, v: Vec<ImportMeta>)
    ensures
        import_entries(*final(m)) == import_entries(*old(m)).insert(k@, imports_view(v@)),
{
    m.insert(k, v);
}

/// Relies on `DashMap::insert`: the key's value is replaced or added.
#[verifier::external_body]
fn insert_exports(m: &mut DashMap<String, Vec<ExportInfo>>, k: String, v: Vec<ExportInfo>)
    ensures
        export_entries(*final(m)) == export_entries(*old(m)).insert(k@, exports_view(v@)),
{
    m.insert(k, v);
}

/// Relies on `DashMap::get`: the value held for the key, here its
/// `is_memoized` field.
#[verifier::external_body]
fn component_memo_flag(m: &DashMap<String, ComponentMeta>, k: &str) -> (r: Option<bool>)
    ensures
        r == (if component_entries(*m).contains_key(k@) {
            Some(component_entries(*m)[k@].is_memoized)
        } else {
            None
        }),
{
    m.get(k).map(|c| c.is_memoized)
}

/// Relies on `DashMap::iter`: every entry once, in no particular order.
#[verifier::external_body]
fn component_list(m: &DashMap<String, ComponentMeta>) -> (r: Vec<(String, ComponentMeta)>)
    ensures
        forall|i: int|
            0 <= i < r@.len() ==> component_entries(*m).contains_key((#[trigger] r@[i]).0@)
                && component_entries(*m)[r@[i].0@] == r@[i].1@,
        forall|k: Seq<char>|
            #[trigger] component_entries(*m).contains_key(k) ==> exists|i: int|
                0 <= i < r@.len() && (#[trigger] r@[i]).0@ == k,
        forall|i: int, j: int|
            0 <= i < j < r@.len() ==> (#[trigger] r@[i]).0@ != (#[trigger] r@[j]).0@,
{
    m.iter().map(|e| (e.key().clone(), e.value().duplicate())).collect()
}

/// Relies on `DashMap::iter`: every entry once, in no particular order.
#[verifier::external_body]
fn import_list(m: &DashMap<String, Vec<ImportMeta>>) -> (r: Vec<(String, Vec<ImportMeta>)>)
    ensures
        forall|i: int|
            0 <= i < r@.len() ==> import_entries(*m).contains_key((#[trigger] r@[i]).0@)
                && import_entries(*m)[r@[i].0@] == imports_view(r@[i].1@),
        forall|k: Seq<char>|
            #[trigger] import_entries(*m).contains_key(k) ==> exists|i: int|
                0 <= i < r@.len() && (#[trigger] r@[i]).0@ == k,
        forall|i: int, j: int|
            0 <= i < j < r@.len() ==> (#[trigger] r@[i]).0@ != (#[trigger] r@[j]).0@,
{
    m.iter().map(|e| (e.key().clone(), copy_imports(e.value()))).collect()
}

/// Relies on `DashMap::iter`: every entry once, in no particular order.
#[verifier::external_body]
fn export_list(m: &DashMap<String, Vec<ExportInfo>>) -> (r: Vec<(String, Vec<ExportInfo>)>)
    ensures
        forall|i: int|
            0 <= i < r@.len() ==> export_entries(*m).contains_key((#[trigger] r@[i]).0@)
                && export_entries(*m)[r@[i].0@] == exports_view(r@[i].1@),
        forall|k: Seq<char>|
            #[trigger] export_entries(*m).contains_key(k) ==> exists|i: int|
                0 <= i < r@.len() && (#[trigger] r@[i]).0@ == k,
        forall|i: int, j: int|
            0 <= i < j < r@.len() ==> (#[trigger] r@[i]).0@ != (#[trigger] r@[j]).0@,
{
    m.iter().map(|e| (e.key().clone(), copy_exports(e.value()))).collect()
}

/// One source file handed to the indexer: its path, its full text, and its
/// syntax tree (`None` where the text did not parse).
pub struct SourceFile {
    pub path: String,
    pub content: String,
    pub tree: Option<Module>,
}

/// Components, imports and exports of a project, each keyed by file path.
///
/// The component map has one slot per file: when a file declares several
/// components, the one met last is kept. Queries are by file, so one record
/// per file is what they need; the full list per file stays available from
/// extraction and from the cache.
pub struct MetadataGraph {
    components: DashMap<String, ComponentMeta>,
    imports: DashMap<String, Vec<ImportMeta>>,
    exports: DashMap<String, Vec<ExportInfo>>,
}

pub struct GraphView {
    pub components: Map<Seq<char>, ComponentView>,
    pub imports: Map<Seq<char>, Seq<ImportView>>,
    pub exports: Map<Seq<char>, Seq<ExportView>>,
}

impl View for MetadataGraph {
    type V = GraphView;

    /// The contents of the three maps, by file path.
    closed spec fn view(&self) -> GraphView {
        GraphView {
            components: component_entries(self.components),
            imports: import_entries(self.imports),
            exports: export_entries(self.exports),
        }
    }
}

pub open spec fn empty_graph() -> GraphView {
    GraphView { components: Map::empty(), imports: Map::empty(), exports: Map::empty() }
}

/// A component as the graph holds it: with its file's path and exports.
pub open spec fn placed(c: ComponentView, path: Seq<char>, exports: Seq<ExportView>) -> ComponentView {
    ComponentView { file_path: path, exports, ..c }
}

/// The graph after merging one file's extraction result: non-empty import
/// and export lists are stored under the path, and the file's last component,
/// placed in the file, takes the path's component slot.
pub open spec fn merge_file(g: GraphView, path: Seq<char>, a: AnalysisView) -> GraphView {
    GraphView {
        components: if a.components.len() == 0 {
            g.components
        } else {
            g.components.insert(path, placed(a.components.last(), path, a.exports))
        },
        imports: if a.imports.len() == 0 {
            g.imports
        } else {
            g.imports.insert(path, a.imports)
        },
        exports: if a.exports.len() == 0 {
            g.exports
        } else {
            g.exports.insert(path, a.exports)
        },
    }
}

/// Indexing without a cache: every source file is extracted and merged in
/// turn; a path that is not a source path is passed over.
pub open spec fn index_view(files: Seq<SourceFile>) -> GraphView
    decreases files.len(),
{
    if files.len() == 0 {
        empty_graph()
    } else if !is_source_path_spec(files.last().path@) {
        index_view(files.drop_last())
    } else {
        merge_file(index_view(files.drop_last()), files.last().path@, extraction_of(files.last().tree))
    }
}

/// A cache's memory tier seen through the views of its entries:
/// fingerprint, time stored, and extraction result.
pub open spec fn memory_view(m: Map<Seq<char>, CacheEntry<FileAnalysis>>) -> Map<
    Seq<char>,
    (u64, u64, AnalysisView),
> {
    Map::new(
        |k: Seq<char>| m.contains_key(k),
        |k: Seq<char>| (m[k].content_hash, m[k].modified_at, m[k].data@),
    )
}

pub open spec fn is_hit(memory: Map<Seq<char>, (u64, u64, AnalysisView)>, f: SourceFile) -> bool {
    memory.contains_key(f.path@) && memory[f.path@].0 == crate::cache::fingerprint(f.content@)
}

/// The result used for a file: the cached one on a hit, else a fresh
/// extraction.
pub open spec fn analysis_for(
    memory: Map<Seq<char>, (u64, u64, AnalysisView)>,
    f: SourceFile,
) -> AnalysisView {
    if is_hit(memory, f) {
        memory[f.path@].2
    } else {
        extraction_of(f.tree)
    }
}

/// The state of a cached indexing run: the cache's memory tier and the graph.
pub struct RunView {
    pub memory: Map<Seq<char>, (u64, u64, AnalysisView)>,
    pub graph: GraphView,
}

/// One file of a cached run: look up, extract and store on a miss, merge. A
/// path that is not a source path is passed over.
pub open spec fn cached_step(r: RunView, f: SourceFile, now: u64) -> RunView {
    if !is_source_path_spec(f.path@) {
        r
    } else {
        cached_hit_or_store(r, f, now)
    }
}

pub open spec fn cached_hit_or_store(r: RunView, f: SourceFile, now: u64) -> RunView {
    RunView {
        memory: if is_hit(r.memory, f) {
            r.memory
        } else {
            r.memory.insert(
                f.path@,
                (crate::cache::fingerprint(f.content@), now, extraction_of(f.tree)),
            )
        },
        graph: merge_file(r.graph, f.path@, analysis_for(r.memory, f)),
    }
}

/// A cached indexing run over `files`, in order, from the memory tier `memory`.
pub open spec fn cached_run(
    memory: Map<Seq<char>, (u64, u64, AnalysisView)>,
    files: Seq<SourceFile>,
    now: u64,
) -> RunView
    decreases files.len(),
{
    if files.len() == 0 {
        RunView { memory, graph: empty_graph() }
    } else {
        cached_step(cached_run(memory, files.drop_last(), now), files.last(), now)
    }
}

/// Some export in `exports` is named `symbol`.
pub open spec fn exports_symbol(exports: Seq<ExportView>, symbol: Seq<char>) -> bool {
    exists|i: int| 0 <= i < exports.len() && (#[trigger] exports[i]).name == symbol
}

fn has_export_named(exports: &Vec<ExportInfo>, symbol: &String) -> (r: bool)
    ensures
        r == exports_symbol(exports_view(exports@), symbol@),
{
    let mut i: usize = 0;
    while i < exports.len()
        invariant
            i <= exports@.len(),
            forall|j: int| 0 <= j < i ==> (#[trigger] exports@[j]).name@ != symbol@,
        decreases exports@.len() - i,
    {
        if exports[i].name == *symbol {
            assert(exports_view(exports@)[i as int].name == symbol@);
            return true;
        }
        i = i + 1;
    }
    assert forall|j: int|
        0 <= j < exports@.len() implies (#[trigger] exports_view(exports@)[j]).name != symbol@ by {
        assert(exports@[j].name@ != symbol@);
    }
    false
}

impl MetadataGraph {
    /// A graph with nothing in it.
    pub fn new() -> (r: Self)
        ensures
            r@ == empty_graph(),
    {
        let r = MetadataGraph {
            components: new_component_map(),
            imports: new_import_map(),
            exports: new_export_map(),
        };
        assert(r@.components =~= Map::<Seq<char>, ComponentView>::empty());
        assert(r@.imports =~= Map::<Seq<char>, Seq<ImportView>>::empty());
        assert(r@.exports =~= Map::<Seq<char>, Seq<ExportView>>::empty());
        r
    }

    /// Merges one file's extraction result under its path.
    pub fn record(&mut self, path: &String, analysis: FileAnalysis)
        ensures
            final(self)@ == merge_file(old(self)@, path@, analysis@),
    {
        let ghost a = analysis@;
        let FileAnalysis { mut components, imports, exports } = analysis;
        if imports.len() > 0 {
            insert_imports(&mut self.imports, path.clone(), imports);
        }
        if exports.len() > 0 {
            insert_exports(&mut self.exports, path.clone(), copy_exports(&exports));
        }
        if components.len() > 0 {
            let mut last = components.pop().unwrap();
            assert(last@ == a.components.last());
            last.file_path = path.clone();
            last.exports = exports;
            assert(last@ == placed(a.components.last(), path@, a.exports));
            insert_component(&mut self.components, path.clone(), last);
        }
    }

    /// Indexes `files` with the cache: each file's result comes from the
    /// cache when it holds one for the file's exact text, and is otherwise
    /// extracted and stored, stamped `now`.
    pub fn index_project(
        files: &Vec<SourceFile>,
        cache: &mut IncrementalCache<FileAnalysis>,
        now: u64,
    ) -> (r: Self)
        requires
            old(cache).wf(),
        ensures
            final(cache).wf(),
            r@ == cached_run(memory_view(old(cache).memory()), files@, now).graph,
            memory_view(final(cache).memory()) == cached_run(
                memory_view(old(cache).memory()),
                files@,
                now,
            ).memory,
    {
        Self::index_project_with_cache(files, true, cache, now)
    }

    /// Indexes `files`, through the cache when `use_cache` holds; without it
    /// every file is extracted and the cache is left as it was.
    pub fn index_project_with_cache(
        files: &Vec<SourceFile>,
        use_cache: bool,
        cache: &mut IncrementalCache<FileAnalysis>,
        now: u64,
    ) -> (r: Self)
        requires
            old(cache).wf(),
        ensures
            final(cache).wf(),
            use_cache ==> r@ == cached_run(memory_view(old(cache).memory()), files@, now).graph,
            use_cache ==> memory_view(final(cache).memory()) == cached_run(
                memory_view(old(cache).memory()),
                files@,
                now,
            ).memory,
            !use_cache ==> r@ == index_view(files@),
            !use_cache ==> final(cache).memory() == old(cache).memory(),
    {
        let mut graph = MetadataGraph::new();
        let ghost mem0 = memory_view(cache.memory());
        let mut i: usize = 0;
        while i < files.len()
            invariant
                i <= files@.len(),
                cache.wf(),
                use_cache ==> graph@ == cached_run(mem0, files@.subrange(0, i as int), now).graph,
                use_cache ==> memory_view(cache.memory()) == cached_run(
                    mem0,
                    files@.subrange(0, i as int),
                    now,
                ).memory,
                !use_cache ==> graph@ == index_view(files@.subrange(0, i as int)),
                !use_cache ==> cache.memory() == old(cache).memory(),
                mem0 == memory_view(old(cache).memory()),
            decreases files@.len() - i,
        {
            let f = &files[i];
            assert(files@.subrange(0, i + 1).drop_last() =~= files@.subrange(0, i as int));
            assert(files@.subrange(0, i + 1).last() == *f);
            if !is_source_path(f.path.as_str()) {
            } else if use_cache {
                let ghost before = memory_view(cache.memory());
                let hit: Option<FileAnalysis> = match cache.get(f.path.as_str(), f.content.as_str()) {
                    Some(d) => Some(d.duplicate()),
                    None => None,
                };
                let analysis = match hit {
                    Some(a) => {
                        assert(is_hit(before, *f));
                        a
                    },
                    None => {
                        assert(!is_hit(before, *f));
                        let fresh = extract_all(&f.tree);
                        let copy = fresh.duplicate();
                        let ghost fv = fresh@;
                        cache.set(f.path.as_str(), f.content.as_str(), fresh, now);
                        assert(memory_view(cache.memory()) =~= before.insert(
                            f.path@,
                            (crate::cache::fingerprint(f.content@), now, fv),
                        ));
                        copy
                    },
                };
                graph.record(&f.path, analysis);
            } else {
                let analysis = extract_all(&f.tree);
                graph.record(&f.path, analysis);
            }
            i = i + 1;
        }
        assert(files@.subrange(0, files@.len() as int) =~= files@);
        graph
    }

    /// A component whose file exports `symbol`, if there is one; which one,
    /// when several are, is not specified.
    pub fn get_memo_boundary(&self, symbol: &str) -> (r: Option<ComponentMeta>)
        ensures
            match r {
                Some(c) => exists|k: Seq<char>|
                    #[trigger] self@.components.contains_key(k) && self@.components[k] == c@
                        && exports_symbol(c@.exports, symbol@),
                None => forall|k: Seq<char>|
                    #[trigger] self@.components.contains_key(k) ==> !exports_symbol(
                        self@.components[k].exports,
                        symbol@,
                    ),
            },
    {
        let wanted = symbol.to_owned();
        let list = component_list(&self.components);
        let mut i: usize = 0;
        while i < list.len()
            invariant
                i <= list@.len(),
                wanted@ == symbol@,
                forall|j: int|
                    0 <= j < list@.len() ==> self@.components.contains_key((#[trigger] list@[j]).0@)
                        && self@.components[list@[j].0@] == list@[j].1@,
                forall|k: Seq<char>|
                    #[trigger] self@.components.contains_key(k) ==> exists|j: int|
                        0 <= j < list@.len() && (#[trigger] list@[j]).0@ == k,
                forall|j: int|
                    0 <= j < i ==> !exports_symbol((#[trigger] list@[j]).1@.exports, symbol@),
            decreases list@.len() - i,
        {
            if has_export_named(&list[i].1.exports, &wanted) {
                let c = list[i].1.duplicate();
                assert(self@.components.contains_key(list@[i as int].0@));
                return Some(c);
            }
            i = i + 1;
        }
        None
    }

    /// Whether the component recorded for `file` is memoized; `false` when
    /// the file has none.
    pub fn is_component_memoized(&self, file: &str) -> (r: bool)
        ensures
            r == (self@.components.contains_key(file@) && self@.components[file@].is_memoized),
    {
        match component_memo_flag(&self.components, file) {
            Some(flag) => flag,
            None => false,
        }
    }

    /// Every component entry once, in no particular order.
    pub fn component_snapshot(&self) -> (r: Vec<(String, ComponentMeta)>)
        ensures
            forall|i: int|
                0 <= i < r@.len() ==> self@.components.contains_key((#[trigger] r@[i]).0@)
                    && self@.components[r@[i].0@] == r@[i].1@,
            forall|k: Seq<char>|
                #[trigger] self@.components.contains_key(k) ==> exists|i: int|
                    0 <= i < r@.len() && (#[trigger] r@[i]).0@ == k,
            forall|i: int, j: int|
                0 <= i < j < r@.len() ==> (#[trigger] r@[i]).0@ != (#[trigger] r@[j]).0@,
    {
        component_list(&self.components)
    }

    /// Every import entry once, in no particular order.
    pub fn import_snapshot(&self) -> (r: Vec<(String, Vec<ImportMeta>)>)
        ensures
            forall|i: int|
                0 <= i < r@.len() ==> self@.imports.contains_key((#[trigger] r@[i]).0@)
                    && self@.imports[r@[i].0@] == imports_view(r@[i].1@),
            forall|k: Seq<char>|
                #[trigger] self@.imports.contains_key(k) ==> exists|i: int|
                    0 <= i < r@.len() && (#[trigger] r@[i]).0@ == k,
            forall|i: int, j: int|
                0 <= i < j < r@.len() ==> (#[trigger] r@[i]).0@ != (#[trigger] r@[j]).0@,
    {
        import_list(&self.imports)
    }

    /// Every export entry once, in no particular order.
    pub fn export_snapshot(&self) -> (r: Vec<(String, Vec<ExportInfo>)>)
        ensures
            forall|i: int|
                0 <= i < r@.len() ==> self@.exports.contains_key((#[trigger] r@[i]).0@)
                    && self@.exports[r@[i].0@] == exports_view(r@[i].1@),
            forall|k: Seq<char>|
                #[trigger] self@.exports.contains_key(k) ==> exists|i: int|
                    0 <= i < r@.len() && (#[trigger] r@[i]).0@ == k,
            forall|i: int, j: int|
                0 <= i < j < r@.len() ==> (#[trigger] r@[i]).0@ != (#[trigger] r@[j]).0@,
    {
        export_list(&self.exports)
    }
}

/// No two files share a path.
pub open spec fn distinct_paths(files: Seq<SourceFile>) -> bool {
    forall|i: int, j: int|
        0 <= i < j < files.len() ==> (#[trigger] files[i]).path@ != (#[trigger] files[j]).path@
}

proof fn lemma_run_keeps_other_paths(
    memory: Map<Seq<char>, (u64, u64, AnalysisView)>,
    files: Seq<SourceFile>,
    now: u64,
    k: Seq<char>,
)
    requires
        forall|i: int| 0 <= i < files.len() ==> (#[trigger] files[i]).path@ != k,
    ensures
        cached_run(memory, files, now).memory.contains_key(k) == memory.contains_key(k),
        memory.contains_key(k) ==> cached_run(memory, files, now).memory[k] == memory[k],
    decreases files.len(),
{
    if files.len() > 0 {
        let rest = files.drop_last();
        assert forall|i: int| 0 <= i < rest.len() implies (#[trigger] rest[i]).path@ != k by {
            assert(rest[i] == files[i]);
        }
        lemma_run_keeps_other_paths(memory, rest, now, k);
        assert(files.last().path@ != k);
    }
}

proof fn lemma_run_entry(
    memory: Map<Seq<char>, (u64, u64, AnalysisView)>,
    files: Seq<SourceFile>,
    now: u64,
    i: int,
)
    requires
        distinct_paths(files),
        0 <= i < files.len(),
        is_source_path_spec(files[i].path@),
    ensures
        ({
            let m = cached_run(memory, files, now).memory;
            let f = files[i];
            &&& m.contains_key(f.path@)
            &&& m[f.path@].0 == crate::cache::fingerprint(f.content@)
            &&& m[f.path@].2 == analysis_for(
                cached_run(memory, files.subrange(0, i), now).memory,
                f,
            )
        }),
    decreases files.len(),
{
    let rest = files.drop_last();
    if i == files.len() - 1 {
        assert(files.subrange(0, i) =~= rest);
    } else {
        assert(distinct_paths(rest)) by {
            assert forall|a: int, b: int|
                0 <= a < b < rest.len() implies (#[trigger] rest[a]).path@ != (
                #[trigger] rest[b]).path@ by {
                assert(rest[a] == files[a] && rest[b] == files[b]);
            }
        }
        lemma_run_entry(memory, rest, now, i);
        assert(rest.subrange(0, i) =~= files.subrange(0, i));
        assert(rest[i] == files[i]);
        assert(files.last().path@ != files[i].path@) by {
            assert(files[files.len() - 1] == files.last());
        }
    }
}

proof fn lemma_rerun_prefix(
    memory: Map<Seq<char>, (u64, u64, AnalysisView)>,
    files: Seq<SourceFile>,
    now1: u64,
    now2: u64,
    n: int,
)
    requires
        distinct_paths(files),
        0 <= n <= files.len(),
    ensures
        ({
            let first = cached_run(memory, files, now1);
            cached_run(first.memory, files.subrange(0, n), now2) == RunView {
                memory: first.memory,
                graph: cached_run(memory, files.subrange(0, n), now1).graph,
            }
        }),
    decreases n,
{
    let first = cached_run(memory, files, now1);
    if n > 0 {
        lemma_rerun_prefix(memory, files, now1, now2, n - 1);
        let pre = files.subrange(0, n);
        assert(pre.drop_last() =~= files.subrange(0, n - 1));
        assert(pre.last() == files[n - 1]);
        if is_source_path_spec(files[n - 1].path@) {
            lemma_run_entry(memory, files, now1, n - 1);
            assert(is_hit(first.memory, files[n - 1]));
        }
    } else {
        assert(files.subrange(0, 0) =~= Seq::<SourceFile>::empty());
    }
}

/// Re-indexing an unchanged project with the cache that the first run left
/// behind finds every source file in the cache, so no file is extracted
/// again, and yields the same graph and the same cache.
pub proof fn lemma_reindex_hits_cache(
    memory: Map<Seq<char>, (u64, u64, AnalysisView)>,
    files: Seq<SourceFile>,
    now1: u64,
    now2: u64,
)
    requires
        distinct_paths(files),
    ensures
        ({
            let first = cached_run(memory, files, now1);
            let second = cached_run(first.memory, files, now2);
            &&& forall|i: int|
                0 <= i < files.len() && is_source_path_spec(files[i].path@) ==> is_hit(
                    first.memory,
                    #[trigger] files[i],
                )
            &&& second.graph == first.graph
            &&& second.memory == first.memory
        }),
{
    let first = cached_run(memory, files, now1);
    lemma_rerun_prefix(memory, files, now1, now2, files.len() as int);
    assert(files.subrange(0, files.len() as int) =~= files);
    assert forall|i: int|
        0 <= i < files.len() && is_source_path_spec(files[i].path@) implies is_hit(
        first.memory,
        #[trigger] files[i],
    ) by {
        lemma_run_entry(memory, files, now1, i);
    }
}

/// A file whose text did not parse adds nothing to the graph: indexing
/// without it gives the same graph.
pub proof fn lemma_unparsed_file_adds_nothing(files: Seq<SourceFile>, i: int)
    requires
        0 <= i < files.len(),
        files[i].tree is None,
    ensures
        index_view(files) == index_view(files.remove(i)),
    decreases files.len(),
{
    if i == files.len() - 1 {
        assert(files.remove(i) =~= files.drop_last());
    } else {
        let rest = files.drop_last();
        lemma_unparsed_file_adds_nothing(rest, i);
        assert(files.remove(i).drop_last() =~= rest.remove(i));
        assert(files.remove(i).last() == files.last());
    }
}

/// The graph answers "memoized" for a file whose last extracted component is
/// memoized.
pub proof fn lemma_memoized_component_recorded(g: GraphView, path: Seq<char>, a: AnalysisView)
    requires
        a.components.len() > 0,
        a.components.last().is_memoized,
    ensures
        merge_file(g, path, a).components.contains_key(path),
        merge_file(g, path, a).components[path].is_memoized,
{
}

/// Every file path that keys the graph is a source path: it has a source
/// extension and no component under a denylisted directory.
pub open spec fn keys_are_source_paths(g: GraphView) -> bool {
    &&& forall|k: Seq<char>| #[trigger] g.components.contains_key(k) ==> is_source_path_spec(k)
    &&& forall|k: Seq<char>| #[trigger] g.imports.contains_key(k) ==> is_source_path_spec(k)
    &&& forall|k: Seq<char>| #[trigger] g.exports.contains_key(k) ==> is_source_path_spec(k)
}

proof fn lemma_merge_keeps_source_keys(g: GraphView, path: Seq<char>, a: AnalysisView)
    requires
        keys_are_source_paths(g),
        is_source_path_spec(path),
    ensures
        keys_are_source_paths(merge_file(g, path, a)),
{
}

/// Exclusion, without the cache: whatever file list is indexed, no file under
/// a denylisted directory, and no file without a source extension, has an
/// entry in the graph.
pub proof fn lemma_index_excludes_denied(files: Seq<SourceFile>)
    ensures
        keys_are_source_paths(index_view(files)),
        forall|k: Seq<char>| #[trigger] index_view(files).components.contains_key(k) ==> !in_denied_dir(k),
    decreases files.len(),
{
    if files.len() > 0 {
        lemma_index_excludes_denied(files.drop_last());
        if is_source_path_spec(files.last().path@) {
            lemma_merge_keeps_source_keys(
                index_view(files.drop_last()),
                files.last().path@,
                extraction_of(files.last().tree),
            );
        }
    }
}

/// Exclusion, with the cache: whatever file list is indexed and whatever the
/// cache held, no file under a denylisted directory, and no file without a
/// source extension, has an entry in the graph.
pub proof fn lemma_cached_index_excludes_denied(
    memory: Map<Seq<char>, (u64, u64, AnalysisView)>,
    files: Seq<SourceFile>,
    now: u64,
)
    ensures
        keys_are_source_paths(cached_run(memory, files, now).graph),
        forall|k: Seq<char>| #[trigger] cached_run(memory, files, now).graph.components.contains_key(k) ==> !in_denied_dir(k),
    decreases files.len(),
{
    if files.len() > 0 {
        lemma_cached_index_excludes_denied(memory, files.drop_last(), now);
        let r = cached_run(memory, files.drop_last(), now);
        if is_source_path_spec(files.last().path@) {
            lemma_merge_keeps_source_keys(
                r.graph,
                files.last().path@,
                analysis_for(r.memory, files.last()),
            );
        }
    }
}

/// With the cache: a file whose text did not parse, and for which the cache
/// held no entry for that text, adds nothing to the graph, and the run leaves
/// the cache as the run without it would, but for that file's own entry.
pub proof fn lemma_unparsed_file_adds_nothing_cached(
    memory: Map<Seq<char>, (u64, u64, AnalysisView)>,
    files: Seq<SourceFile>,
    now: u64,
    i: int,
)
    requires
        distinct_paths(files),
        0 <= i < files.len(),
        files[i].tree is None,
        !is_hit(memory, files[i]),
    ensures
        cached_run(memory, files, now).graph == cached_run(memory, files.remove(i), now).graph,
        cached_run(memory, files, now).memory.remove(files[i].path@) == cached_run(
            memory,
            files.remove(i),
            now,
        ).memory.remove(files[i].path@),
    decreases files.len(),
{
    let p = files[i].path@;
    let rest = files.drop_last();
    if i == files.len() - 1 {
        assert(files.remove(i) =~= rest);
        assert forall|j: int| 0 <= j < rest.len() implies (#[trigger] rest[j]).path@ != p by {
            assert(rest[j] == files[j]);
        }
        lemma_run_keeps_other_paths(memory, rest, now, p);
        let r = cached_run(memory, rest, now);
        assert(files.last() == files[i]);
        assert(!is_hit(r.memory, files[i]));
        if is_source_path_spec(p) {
            let m = r.memory.insert(
                p,
                (crate::cache::fingerprint(files[i].content@), now, extraction_of(files[i].tree)),
            );
            assert(m.remove(p) =~= r.memory.remove(p));
        }
    } else {
        assert(distinct_paths(rest)) by {
            assert forall|a: int, b: int|
                0 <= a < b < rest.len() implies (#[trigger] rest[a]).path@ != (
                #[trigger] rest[b]).path@ by {
                assert(rest[a] == files[a] && rest[b] == files[b]);
            }
        }
        assert(rest[i] == files[i]);
        lemma_unparsed_file_adds_nothing_cached(memory, rest, now, i);
        assert(files.remove(i).drop_last() =~= rest.remove(i));
        assert(files.remove(i).last() == files.last());
        let last = files.last();
        let q = last.path@;
        assert(q != p) by {
            assert(files[files.len() - 1] == last);
        }
        let r1 = cached_run(memory, rest, now);
        let r2 = cached_run(memory, rest.remove(i), now);
        assert(r1.memory.remove(p).contains_key(q) == r1.memory.contains_key(q));
        assert(r2.memory.remove(p).contains_key(q) == r2.memory.contains_key(q));
        if r1.memory.contains_key(q) {
            assert(r1.memory.remove(p)[q] == r1.memory[q]);
            assert(r2.memory.remove(p)[q] == r2.memory[q]);
        }
        if is_source_path_spec(q) && !is_hit(r1.memory, last) {
            let v = (crate::cache::fingerprint(last.content@), now, extraction_of(last.tree));
            assert(r1.memory.insert(q, v).remove(p) =~= r1.memory.remove(p).insert(q, v));
            assert(r2.memory.insert(q, v).remove(p) =~= r2.memory.remove(p).insert(q, v));
        }
    }
}

/// Every key of the graph is the path of one of the files.
pub open spec fn keys_from_files(g: GraphView, files: Seq<SourceFile>) -> bool {
    &&& forall|k: Seq<char>|
        #[trigger] g.components.contains_key(k) ==> exists|j: int|
            0 <= j < files.len() && (#[trigger] files[j]).path@ == k
    &&& forall|k: Seq<char>|
        #[trigger] g.imports.contains_key(k) ==> exists|j: int|
            0 <= j < files.len() && (#[trigger] files[j]).path@ == k
    &&& forall|k: Seq<char>|
        #[trigger] g.exports.contains_key(k) ==> exists|j: int|
            0 <= j < files.len() && (#[trigger] files[j]).path@ == k
}

proof fn lemma_merge_keys_from_files(g: GraphView, files: Seq<SourceFile>, a: AnalysisView)
    requires
        files.len() > 0,
        keys_from_files(g, files.drop_last()),
    ensures
        keys_from_files(merge_file(g, files.last().path@, a), files),
{
    let rest = files.drop_last();
    let m = merge_file(g, files.last().path@, a);
    assert forall|k: Seq<char>| #[trigger] m.components.contains_key(k) implies exists|j: int|
        0 <= j < files.len() && (#[trigger] files[j]).path@ == k by {
        if k == files.last().path@ {
            assert(files[files.len() - 1] == files.last());
        } else {
            let j = choose|j: int| 0 <= j < rest.len() && (#[trigger] rest[j]).path@ == k;
            assert(files[j] == rest[j]);
        }
    }
    assert forall|k: Seq<char>| #[trigger] m.imports.contains_key(k) implies exists|j: int|
        0 <= j < files.len() && (#[trigger] files[j]).path@ == k by {
        if k == files.last().path@ {
            assert(files[files.len() - 1] == files.last());
        } else {
            let j = choose|j: int| 0 <= j < rest.len() && (#[trigger] rest[j]).path@ == k;
            assert(files[j] == rest[j]);
        }
    }
    assert forall|k: Seq<char>| #[trigger] m.exports.contains_key(k) implies exists|j: int|
        0 <= j < files.len() && (#[trigger] files[j]).path@ == k by {
        if k == files.last().path@ {
            assert(files[files.len() - 1] == files.last());
        } else {
            let j = choose|j: int| 0 <= j < rest.len() && (#[trigger] rest[j]).path@ == k;
            assert(files[j] == rest[j]);
        }
    }
}

proof fn lemma_keys_widen(g: GraphView, files: Seq<SourceFile>)
    requires
        files.len() > 0,
        keys_from_files(g, files.drop_last()),
    ensures
        keys_from_files(g, files),
{
    let rest = files.drop_last();
    assert forall|k: Seq<char>| #[trigger] g.components.contains_key(k) implies exists|j: int|
        0 <= j < files.len() && (#[trigger] files[j]).path@ == k by {
        let j = choose|j: int| 0 <= j < rest.len() && (#[trigger] rest[j]).path@ == k;
        assert(files[j] == rest[j]);
    }
    assert forall|k: Seq<char>| #[trigger] g.imports.contains_key(k) implies exists|j: int|
        0 <= j < files.len() && (#[trigger] files[j]).path@ == k by {
        let j = choose|j: int| 0 <= j < rest.len() && (#[trigger] rest[j]).path@ == k;
        assert(files[j] == rest[j]);
    }
    assert forall|k: Seq<char>| #[trigger] g.exports.contains_key(k) implies exists|j: int|
        0 <= j < files.len() && (#[trigger] files[j]).path@ == k by {
        let j = choose|j: int| 0 <= j < rest.len() && (#[trigger] rest[j]).path@ == k;
        assert(files[j] == rest[j]);
    }
}

/// Indexing without the cache only creates entries for the files' paths.
pub proof fn lemma_index_keys_from_files(files: Seq<SourceFile>)
    ensures
        keys_from_files(index_view(files), files),
    decreases files.len(),
{
    if files.len() > 0 {
        lemma_index_keys_from_files(files.drop_last());
        if is_source_path_spec(files.last().path@) {
            lemma_merge_keys_from_files(
                index_view(files.drop_last()),
                files,
                extraction_of(files.last().tree),
            );
        } else {
            lemma_keys_widen(index_view(files.drop_last()), files);
        }
    }
}

/// Indexing with the cache only creates entries for the files' paths.
pub proof fn lemma_cached_index_keys_from_files(
    memory: Map<Seq<char>, (u64, u64, AnalysisView)>,
    files: Seq<SourceFile>,
    now: u64,
)
    ensures
        keys_from_files(cached_run(memory, files, now).graph, files),
    decreases files.len(),
{
    if files.len() > 0 {
        lemma_cached_index_keys_from_files(memory, files.drop_last(), now);
        let r = cached_run(memory, files.drop_last(), now);
        if is_source_path_spec(files.last().path@) {
            lemma_merge_keys_from_files(r.graph, files, analysis_for(r.memory, files.last()));
        } else {
            lemma_keys_widen(r.graph, files);
        }
    }
}

/// With distinct paths, a graph whose keys all come from the other files has
/// no entry for file `i`.
proof fn lemma_removed_path_absent(g: GraphView, files: Seq<SourceFile>, i: int)
    requires
        distinct_paths(files),
        0 <= i < files.len(),
        keys_from_files(g, files.remove(i)),
    ensures
        !g.components.contains_key(files[i].path@),
        !g.imports.contains_key(files[i].path@),
        !g.exports.contains_key(files[i].path@),
{
    let p = files[i].path@;
    let rest = files.remove(i);
    assert forall|j: int| 0 <= j < rest.len() implies (#[trigger] rest[j]).path@ != p by {
        if j < i {
            assert(rest[j] == files[j]);
        } else {
            assert(rest[j] == files[j + 1]);
        }
    }
}

/// Graceful degradation, stated on the maps: with distinct paths, a file
/// whose text did not parse is a key of no map after indexing without the
/// cache.
pub proof fn lemma_unparsed_file_absent(files: Seq<SourceFile>, i: int)
    requires
        distinct_paths(files),
        0 <= i < files.len(),
        files[i].tree is None,
    ensures
        !index_view(files).components.contains_key(files[i].path@),
        !index_view(files).imports.contains_key(files[i].path@),
        !index_view(files).exports.contains_key(files[i].path@),
{
    lemma_unparsed_file_adds_nothing(files, i);
    lemma_index_keys_from_files(files.remove(i));
    lemma_removed_path_absent(index_view(files), files, i);
}

/// Graceful degradation with the cache, stated on the maps: with distinct
/// paths, a file whose text did not parse and that the cache held nothing
/// valid for is a key of no map after the run.
pub proof fn lemma_unparsed_file_absent_cached(
    memory: Map<Seq<char>, (u64, u64, AnalysisView)>,
    files: Seq<SourceFile>,
    now: u64,
    i: int,
)
    requires
        distinct_paths(files),
        0 <= i < files.len(),
        files[i].tree is None,
        !is_hit(memory, files[i]),
    ensures
        !cached_run(memory, files, now).graph.components.contains_key(files[i].path@),
        !cached_run(memory, files, now).graph.imports.contains_key(files[i].path@),
        !cached_run(memory, files, now).graph.exports.contains_key(files[i].path@),
{
    lemma_unparsed_file_adds_nothing_cached(memory, files, now, i);
    lemma_cached_index_keys_from_files(memory, files.remove(i), now);
    lemma_removed_path_absent(cached_run(memory, files, now).graph, files, i);
}

} // verus!
