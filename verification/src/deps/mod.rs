//! The import graph: extracting imports, resolving them to files of the
//! repository, and answering what a file depends on and what uses it.
use vstd::prelude::*;

pub mod pathmap;
pub mod filemap;
pub mod resolve;
pub mod sorted;
pub mod query;
pub mod extract;
pub mod rustuse;
pub mod graph;
pub mod manifest;

use crate::deps::filemap::FileMap;

pub use graph::{current_graph, deps_cache_path};

verus! {

/// One import of a file: the file it resolves to (or the import path as
/// written when it is external), the symbols it names, and whether it is
/// external.
pub struct ImportInfo {
    pub path: String,
    pub symbols: Vec<String>,
    pub external: bool,
}

/// The imports of one file: the hash of the content they were extracted
/// from, the raw imports (path and symbols as written), and the resolved
/// imports.
pub struct FileImports {
    pub content_hash: String,
    pub raw_imports: Vec<(String, Vec<String>)>,
    pub imports: Vec<ImportInfo>,
}

/// The import graph of a repository: the cache format version, the
/// fingerprint of the file list and workspace layout it was resolved
/// against, and the imports of each file.
pub struct DepsGraph {
    pub version: u32,
    pub fingerprint: String,
    pub graph: FileMap,
}

} // verus!
