//! A minimal generic syntax tree, as handed across a process boundary, and a
//! depth-first traversal over it.

use vstd::prelude::*;

use crate::paths::chars_of;

verus! {

/// A source range, as byte offsets.
#[derive(Clone, Copy, Debug)]
pub struct SpanJson {
    pub lo: u32,
    pub hi: u32,
}

#[derive(Clone, Copy, Debug, PartialEq, Eq, Structural)]
pub enum NodeKind {
    Root,
}

#[derive(Debug)]
pub struct AstNode {
    pub kind: NodeKind,
    pub span: SpanJson,
    pub children: Vec<AstNode>,
}

/// Why a source text could not be parsed.
#[derive(Debug)]
pub struct ParseError(pub String);

/// What the parser reported for one source text.
#[derive(Clone, Copy, Debug)]
pub struct ParseOutcome {
    /// The text parsed as a TypeScript module with JSX.
    pub module_parsed: bool,
    /// That module attempt recorded no (recoverable) error.
    pub module_recorded_no_error: bool,
    /// The text parsed as a JavaScript script with JSX (only tried, and
    /// otherwise `false`, when the module attempt does not count).
    pub script_parsed: bool,
}

/// The tree handed out for a source that parses: a root with no children.
pub open spec fn is_bare_root(n: AstNode) -> bool {
    n.kind == NodeKind::Root && n.span.lo == 0 && n.span.hi == 0 && n.children@.len() == 0
}

/// Whether the text counts as parsed: as a module (an attempt that recorded
/// no error counts), or else as a script.
pub open spec fn accepted(o: ParseOutcome) -> bool {
    o.module_parsed || o.module_recorded_no_error || o.script_parsed
}

/// The result of parsing a text with outcome `outcome`: the minimal tree
/// when it counts as parsed, else a parse error.
pub fn parse_result(outcome: ParseOutcome) -> (r: Result<AstNode, ParseError>)
    ensures
        r is Ok <==> accepted(outcome),
        r matches Ok(n) ==> is_bare_root(n),
        r matches Err(e) ==> e.0@ == "Parse error"@,
{
    if outcome.module_parsed || outcome.module_recorded_no_error || outcome.script_parsed {
        Ok(AstNode { kind: NodeKind::Root, span: SpanJson { lo: 0, hi: 0 }, children: Vec::new() })
    } else {
        Err(ParseError("Parse error".to_owned()))
    }
}

/// The number of nodes in a tree, the root included.
pub open spec fn node_count(n: AstNode) -> nat
    decreases n,
{
    1 + forest_count(n.children@)
}

/// The number of nodes in a sequence of trees.
pub open spec fn forest_count(s: Seq<AstNode>) -> nat
    decreases s,
{
    if s.len() == 0 {
        0
    } else {
        forest_count(s.drop_last()) + node_count(s.last())
    }
}

/// One call a traversal makes on its visitor.
pub enum VisitEvent {
    Enter(AstNode),
    Exit(AstNode),
}

/// The calls a depth-first walk of `n` makes: `n` is entered, its children
/// are walked in order, then `n` is left.
pub open spec fn node_events(n: AstNode) -> Seq<VisitEvent>
    decreases n,
{
    seq![VisitEvent::Enter(n)] + forest_events(n.children@) + seq![VisitEvent::Exit(n)]
}

/// The calls made walking a sequence of trees in order.
pub open spec fn forest_events(s: Seq<AstNode>) -> Seq<VisitEvent>
    decreases s,
{
    if s.len() == 0 {
        Seq::empty()
    } else {
        forest_events(s.drop_last()) + node_events(s.last())
    }
}

/// How many of the calls enter a node.
pub open spec fn enter_count(s: Seq<VisitEvent>) -> nat
    decreases s.len(),
{
    if s.len() == 0 {
        0
    } else {
        enter_count(s.drop_last()) + if s.last() is Enter {
            1nat
        } else {
            0nat
        }
    }
}

proof fn lemma_enter_count_concat(a: Seq<VisitEvent>, b: Seq<VisitEvent>)
    ensures
        enter_count(a + b) == enter_count(a) + enter_count(b),
    decreases b.len(),
{
    if b.len() == 0 {
        assert(a + b =~= a);
    } else {
        lemma_enter_count_concat(a, b.drop_last());
        assert((a + b).drop_last() =~= a + b.drop_last());
        assert((a + b).last() == b.last());
    }
}

/// A walk enters each node of the tree once.
pub proof fn lemma_walk_enters_every_node(n: AstNode)
    ensures
        enter_count(node_events(n)) == node_count(n),
    decreases n,
{
    let f = forest_events(n.children@);
    lemma_forest_enters_every_node(n.children@);
    lemma_enter_count_concat(seq![VisitEvent::Enter(n)], f);
    lemma_enter_count_concat(seq![VisitEvent::Enter(n)] + f, seq![VisitEvent::Exit(n)]);
    assert(enter_count(seq![VisitEvent::Enter(n)]) == 1) by {
        let one = seq![VisitEvent::Enter(n)];
        assert(one.drop_last() =~= Seq::<VisitEvent>::empty());
        assert(enter_count(Seq::<VisitEvent>::empty()) == 0);
        assert(one.last() == VisitEvent::Enter(n));
    }
    assert(enter_count(seq![VisitEvent::Exit(n)]) == 0) by {
        let one = seq![VisitEvent::Exit(n)];
        assert(one.drop_last() =~= Seq::<VisitEvent>::empty());
        assert(enter_count(Seq::<VisitEvent>::empty()) == 0);
        assert(one.last() == VisitEvent::Exit(n));
    }
}

proof fn lemma_forest_enters_every_node(s: Seq<AstNode>)
    ensures
        enter_count(forest_events(s)) == forest_count(s),
    decreases s,
{
    if s.len() > 0 {
        lemma_forest_enters_every_node(s.drop_last());
        lemma_walk_enters_every_node(s.last());
        lemma_enter_count_concat(forest_events(s.drop_last()), node_events(s.last()));
    }
}

/// Receives each node of a traversal when it is entered and when it is left.
pub trait Visitor {
    /// The calls the visitor has received so far, in order.
    spec fn calls(&self) -> Seq<VisitEvent>;

    /// What the visitor keeps true of its own state.
    spec fn inv(&self) -> bool;

    fn enter(&mut self, node: &AstNode)
        requires
            old(self).inv(),
        ensures
            final(self).inv(),
            final(self).calls() == old(self).calls().push(VisitEvent::Enter(*node)),
    ;

    fn exit(&mut self, node: &AstNode)
        requires
            old(self).inv(),
        ensures
            final(self).inv(),
            final(self).calls() == old(self).calls().push(VisitEvent::Exit(*node)),
    ;
}

/// Walks `node` depth first: each node is entered, then its children are
/// walked in order, then it is left.
pub fn traverse_ast<V: Visitor>(node: &AstNode, visitor: &mut V)
    requires
        old(visitor).inv(),
    ensures
        final(visitor).inv(),
        final(visitor).calls() == old(visitor).calls() + node_events(*node),
    decreases node,
{
    let ghost start = visitor.calls();
    visitor.enter(node);
    let mut i: usize = 0;
    while i < node.children.len()
        invariant
            i <= node.children@.len(),
            visitor.inv(),
            visitor.calls() == start.push(VisitEvent::Enter(*node)) + forest_events(
                node.children@.subrange(0, i as int),
            ),
        decreases node.children@.len() - i,
    {
        let ghost before = visitor.calls();
        assert(node.children@.subrange(0, i + 1).drop_last() =~= node.children@.subrange(
            0,
            i as int,
        ));
        traverse_ast(&node.children[i], visitor);
        i = i + 1;
        assert(visitor.calls() =~= start.push(VisitEvent::Enter(*node)) + forest_events(
            node.children@.subrange(0, i as int),
        ));
    }
    assert(node.children@.subrange(0, node.children@.len() as int) =~= node.children@);
    visitor.exit(node);
    assert(visitor.calls() =~= start + node_events(*node));
}

/// Counts the nodes it enters, stopping at `u32::MAX`.
pub struct Counter {
    pub count: u32,
    pub calls: Ghost<Seq<VisitEvent>>,
}

impl Counter {
    pub fn new() -> (r: Self)
        ensures
            r.count == 0,
            r.calls@ == Seq::<VisitEvent>::empty(),
    {
        Counter { count: 0, calls: Ghost(Seq::empty()) }
    }
}

impl Visitor for Counter {
    open spec fn calls(&self) -> Seq<VisitEvent> {
        self.calls@
    }

    /// The count is the number of nodes entered, up to `u32::MAX`.
    open spec fn inv(&self) -> bool {
        self.count == if enter_count(self.calls@) < u32::MAX as nat {
            enter_count(self.calls@)
        } else {
            u32::MAX as nat
        }
    }

    fn enter(&mut self, node: &AstNode) {
        self.count = self.count.saturating_add(1);
        self.calls = Ghost(self.calls@.push(VisitEvent::Enter(*node)));
        assert(self.calls@.drop_last() =~= old(self).calls@);
    }

    fn exit(&mut self, node: &AstNode) {
        self.calls = Ghost(self.calls@.push(VisitEvent::Exit(*node)));
        assert(self.calls@.drop_last() =~= old(self).calls@);
    }
}

/// What a traversal reports.
#[derive(Clone, Copy, Debug)]
pub struct TraverseStats {
    pub nodes_visited: u32,
}

/// The number of nodes in the tree, stopping at `u32::MAX`.
pub fn count_nodes(ast: &AstNode) -> (r: TraverseStats)
    ensures
        r.nodes_visited == if node_count(*ast) < u32::MAX as nat {
            node_count(*ast)
        } else {
            u32::MAX as nat
        },
{
    let mut counter = Counter::new();
    traverse_ast(ast, &mut counter);
    proof {
        lemma_walk_enters_every_node(*ast);
        assert(counter.calls@ =~= node_events(*ast));
    }
    TraverseStats { nodes_visited: counter.count }
}

/// `s` ends with `suffix`.
pub open spec fn ends_with(s: Seq<char>, suffix: Seq<char>) -> bool {
    suffix.len() <= s.len() && s.subrange(s.len() - suffix.len(), s.len() as int) == suffix
}

fn ends_with_text(s: &Vec<char>, suffix: &str) -> (r: bool)
    ensures
        r == ends_with(s@, suffix@),
{
    let suf = chars_of(suffix);
    if suf.len() > s.len() {
        return false;
    }
    let n = s.len();
    let start = n - suf.len();
    let mut i: usize = 0;
    while i < suf.len()
        invariant
            n == s@.len(),
            suf@ == suffix@,
            suf@.len() <= s@.len(),
            start == s@.len() - suf@.len(),
            i <= suf@.len(),
            forall|j: int| 0 <= j < i ==> s@[start + j] == suf@[j],
        decreases suf@.len() - i,
    {
        if s[start + i] != suf[i] {
            assert(s@.subrange(start as int, s@.len() as int)[i as int] != suf@[i as int]);
            return false;
        }
        i = i + 1;
    }
    assert(s@.subrange(start as int, s@.len() as int) =~= suf@);
    true
}

/// How a file is parsed, chosen from its name.
#[derive(Clone, Copy, Debug, PartialEq, Eq, Structural)]
pub struct Dialect {
    /// TypeScript rather than JavaScript.
    pub typescript: bool,
    /// JSX is accepted.
    pub jsx: bool,
    /// A declaration file (`.d.ts`).
    pub declaration: bool,
}

/// The dialect for a file name: TypeScript for `.ts` and `.tsx`, JSX for
/// `.tsx` and `.jsx`, a declaration file for `.d.ts`.
pub open spec fn dialect_of(name: Seq<char>) -> Dialect {
    Dialect {
        typescript: ends_with(name, ".ts"@) || ends_with(name, ".tsx"@),
        jsx: ends_with(name, ".jsx"@) || ends_with(name, ".tsx"@),
        declaration: ends_with(name, ".d.ts"@),
    }
}

pub fn dialect_for(filename: &str) -> (r: Dialect)
    ensures
        r == dialect_of(filename@),
{
    let name = chars_of(filename);
    let ts = ends_with_text(&name, ".ts");
    let tsx = ends_with_text(&name, ".tsx");
    let jsx = ends_with_text(&name, ".jsx");
    let dts = ends_with_text(&name, ".d.ts");
    Dialect { typescript: ts || tsx, jsx: jsx || tsx, declaration: dts }
}

} // verus!
