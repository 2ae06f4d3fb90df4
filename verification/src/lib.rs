//! Structural code intelligence: repository maps, file skeletons and
//! import graphs for Rust, Python, TypeScript, JavaScript, Go and Java.
use vstd::prelude::*;

pub mod text;
pub mod cache;
pub mod paths;
pub mod index;
pub mod deps;
pub mod codemap;
pub mod walk;
pub mod mcp;
pub mod bench;

verus! {
}
