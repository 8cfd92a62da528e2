//! Structural metadata extraction and project indexing for JavaScript and
//! TypeScript sources: which files declare UI components, which properties
//! they take, what they import and export, and whether they are memoized.

pub mod syntax;
pub mod extract;
pub mod metadata;
pub mod cache;
pub mod graph;
pub mod paths;
pub mod redos;
pub mod parser;

pub use cache::{CacheEntry, CacheStats, IncrementalCache};
pub use parser::{parse_result, traverse_ast, AstNode, NodeKind, SpanJson};
