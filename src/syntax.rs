//! The part of a parsed source file that the extractor reads, as a closed
//! sum type. A parser front end builds it; the extractor never sees text.

use vstd::prelude::*;

verus! {

/// One parameter of a function declaration.
pub enum Pattern {
    /// A bare identifier binding.
    Ident { name: String, line: usize },
    /// An object destructuring pattern.
    Object { line: usize },
    /// An array destructuring pattern.
    Array { line: usize },
    /// Any other parameter shape (rest, default value, ...).
    Other { line: usize },
}

/// The callee of a call expression.
pub enum Callee {
    /// A bare identifier.
    Ident { name: String },
    /// A member access `object.property`; each side is given when it is a
    /// plain identifier.
    Member { object: Option<String>, property: Option<String> },
    /// Any other callee (a computed expression, `super`, `import`).
    Other,
}

/// The initializer of a variable declarator, as far as the rules look at it.
pub enum Initializer {
    /// A call; `first_arg` is the name of its first argument when that
    /// argument is a bare identifier.
    Call { callee: Callee, first_arg: Option<String> },
    /// A function or arrow expression.
    Function,
    /// Anything else.
    Other,
}

/// One binding of an import statement.
pub enum ImportBinding {
    /// `{ imported as local }`, or `{ local }` when `imported` is `None`.
    Named { local: String, imported: Option<String> },
    /// `local` in `import local from ...`.
    Default { local: String },
    /// `* as local`.
    Namespace { local: String },
}

/// The declaration carried by an `export` statement.
pub enum ExportedDecl {
    /// `export function name(...) {...}`
    Function { name: String },
    /// `export const a = ..., b = ...;` with each binding's name when it is a
    /// plain identifier.
    Variables { names: Vec<Option<String>> },
    /// Any other exported declaration (a class, a type, ...).
    Other,
}

/// A node of the syntax tree. `children` hold the nested nodes that a full
/// traversal visits below the node itself, in source order.
#[allow(inconsistent_fields)]
pub enum Node {
    FnDecl { name: String, line: usize, params: Vec<Pattern>, children: Vec<Node> },
    VarDecl { name: Option<String>, line: usize, init: Option<Initializer>, children: Vec<Node> },
    Import { source: String, bindings: Vec<ImportBinding>, line: usize },
    /// An `export` of a declaration; `children` hold the declaration's own
    /// nodes (the exported function or variable declarators).
    ExportDecl { decl: ExportedDecl, line: usize, children: Vec<Node> },
    /// `export default <expr>`; `children` hold the nodes inside the expression.
    ExportDefaultExpr { line: usize, children: Vec<Node> },
    Other { children: Vec<Node> },
}

/// A parsed module: its top-level statements in source order.
pub struct Module {
    pub body: Vec<Node>,
}

} // verus!
