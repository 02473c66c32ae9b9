//! Discovery of `test`, `suite` and `flakySuite` declarations in a parsed
//! JavaScript-family syntax tree, reported as flat records of byte ranges.

pub mod discovery;
pub mod laws;
pub mod record;
pub mod tree;

pub use discovery::{extract, is_walkable, TestDiscovery};
pub use record::{SourceSpan, TestItem};
pub use tree::{CallExpr, Node, Span};
