# taoki

Structural code intelligence for coding agents: compact summaries of a
repository instead of whole files.

- **radar** — a one-line-per-file map of a repository with public types,
  function signatures and heuristic tags; grouped by directory past 100
  files.
- **xray** — the skeleton of one file: imports, types, functions with
  their line ranges, the first line of their doc comments and what their
  bodies call, match on and fail with; test code collapsed.
- **ripple** — the import graph around a file: what it depends on, what
  depends on it (to a depth of 1 to 3), and its external packages.

Rust, Python, TypeScript, JavaScript, Go and Java sources are indexed
with tree-sitter.

## Layout

- `src/` — the library, written in Verus and verified: the language
  extractors over syntax trees (`index/`), body insights, skeleton
  formatting, public API summaries and tags, the repository map
  (`codemap.rs`), the walk filter (`walk.rs`), import extraction,
  resolution and the dependency graph with its incremental cache
  (`deps/`), cache keys and fingerprints (`cache.rs`), the tool answers
  and request routing (`mcp/`), and the benchmark summaries (`bench.rs`).
  Calls into tree-sitter, blake3, globset and `std::path` stand behind
  small trusted wrappers. Each one's contract is stated where it is
  declared, through a named result where the outside result takes more
  than a few lines to state (`parsed_tree`, `blake3_hex`, the glob names,
  the path names).
- `tests/` — tests of the library.
- `app/` — the program around it: the MCP server over stdio (rmcp,
  tokio), the file system walk (ignore), the JSON caches on disk (serde,
  fs2), and the benchmark's floating-point report.
