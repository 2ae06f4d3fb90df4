use taoki::cache::CACHE_VERSION;
use taoki::deps::filemap::FileMap;
use taoki::deps::query::{format_symbols, query_deps};
use taoki::deps::{DepsGraph, FileImports, ImportInfo};

fn fi(imports: Vec<ImportInfo>) -> FileImports {
    FileImports {
        content_hash: String::new(),
        raw_imports: Vec::new(),
        imports,
    }
}

#[test]
fn query_deps_dedup_internal() {
    let mut graph = DepsGraph {
        version: CACHE_VERSION,
        fingerprint: String::new(),
        graph: FileMap::new(),
    };
    graph.graph.insert(
        "src/main.rs".to_string(),
        fi(vec![
            ImportInfo {
                path: "src/utils.rs".to_string(),
                symbols: vec![],
                external: false,
            },
            ImportInfo {
                path: "src/utils.rs".to_string(),
                symbols: vec![],
                external: false,
            },
        ]),
    );
    let out = query_deps(&graph, "src/main.rs", 1);
    // Should only list src/utils.rs once
    assert_eq!(
        out.matches("src/utils.rs").count(),
        1,
        "depends_on should be deduped: {}",
        out
    );
}

#[test]
fn query_deps_renders_symbols() {
    let mut graph = DepsGraph { version: CACHE_VERSION, fingerprint: String::new(), graph: FileMap::new() };
    graph.graph.insert("a.py".to_string(), fi(vec![ImportInfo {
        path: "b.py".to_string(),
        symbols: vec!["Foo".to_string(), "Bar".to_string()],
        external: false,
    }]));
    graph.graph.insert("b.py".to_string(), fi(vec![]));

    let out = query_deps(&graph, "a.py", 1);
    assert!(out.contains("b.py (Bar, Foo)"), "should show sorted symbols: {out}");
}

#[test]
fn query_deps_used_by_merges_symbols_from_multiple_imports() {
    let mut graph = DepsGraph { version: CACHE_VERSION, fingerprint: String::new(), graph: FileMap::new() };
    graph.graph.insert("target.py".to_string(), fi(vec![]));
    // user.py has two separate import statements from target.py
    graph.graph.insert("user.py".to_string(), fi(vec![
        ImportInfo { path: "target.py".to_string(), symbols: vec!["A".to_string()], external: false },
        ImportInfo { path: "target.py".to_string(), symbols: vec!["B".to_string()], external: false },
    ]));

    let out = query_deps(&graph, "target.py", 1);
    assert!(out.contains("A"), "should include symbol A: {out}");
    assert!(out.contains("B"), "should include symbol B: {out}");
    assert!(out.contains("user.py (A, B)"), "should merge symbols: {out}");
}

#[test]
fn query_deps_depth_2_shows_transitive() {
    let mut graph = DepsGraph { version: CACHE_VERSION, fingerprint: String::new(), graph: FileMap::new() };
    graph.graph.insert("a.py".to_string(), fi(vec![]));
    graph.graph.insert("b.py".to_string(), fi(vec![
        ImportInfo { path: "a.py".to_string(), symbols: vec!["X".to_string()], external: false },
    ]));
    graph.graph.insert("c.py".to_string(), fi(vec![
        ImportInfo { path: "b.py".to_string(), symbols: vec!["Y".to_string()], external: false },
    ]));

    let out = query_deps(&graph, "a.py", 2);
    assert!(out.contains("b.py"), "depth 1: b.py uses a.py: {out}");
    assert!(out.contains("c.py"), "depth 2: c.py uses b.py: {out}");
}

#[test]
fn query_deps_cycle_detection() {
    let mut graph = DepsGraph { version: CACHE_VERSION, fingerprint: String::new(), graph: FileMap::new() };
    graph.graph.insert("a.py".to_string(), fi(vec![
        ImportInfo { path: "b.py".to_string(), symbols: vec![], external: false },
    ]));
    graph.graph.insert("b.py".to_string(), fi(vec![
        ImportInfo { path: "a.py".to_string(), symbols: vec![], external: false },
    ]));

    let out = query_deps(&graph, "a.py", 3);
    assert!(out.contains("(cycle)"), "should detect cycle: {out}");
}

#[test]
fn query_deps_depth_header() {
    let mut graph = DepsGraph { version: CACHE_VERSION, fingerprint: String::new(), graph: FileMap::new() };
    graph.graph.insert("a.py".to_string(), fi(vec![]));
    graph.graph.insert("b.py".to_string(), fi(vec![
        ImportInfo { path: "a.py".to_string(), symbols: vec![], external: false },
    ]));

    let out1 = query_deps(&graph, "a.py", 1);
    assert!(out1.contains("used_by:\n"), "depth 1 has plain header: {out1}");

    let out2 = query_deps(&graph, "a.py", 2);
    assert!(out2.contains("used_by (depth=2):"), "depth 2 has annotated header: {out2}");
}

#[test]
fn format_symbols_below_threshold() {
    let syms: Vec<String> = (1..=6).map(|i| format!("Sym{i}")).collect();
    let out = format_symbols(&syms);
    assert_eq!(out, "Sym1, Sym2, Sym3, Sym4, Sym5, Sym6");
}

#[test]
fn format_symbols_above_threshold() {
    let syms: Vec<String> = (1..=10).map(|i| format!("Sym{i}")).collect();
    let out = format_symbols(&syms);
    assert_eq!(out, "Sym1, Sym2, Sym3, Sym4, Sym5, Sym6, ... +4 more");
}

#[test]
fn query_deps_truncates_long_symbol_lists() {
    let mut graph = DepsGraph { version: CACHE_VERSION, fingerprint: String::new(), graph: FileMap::new() };
    let many_symbols: Vec<String> = (1..=10).map(|i| format!("Type{i}")).collect();
    graph.graph.insert("a.py".to_string(), fi(vec![ImportInfo {
        path: "b.py".to_string(),
        symbols: many_symbols,
        external: false,
    }]));
    graph.graph.insert("b.py".to_string(), fi(vec![]));

    let out = query_deps(&graph, "a.py", 1);
    assert!(out.contains("... +4 more"), "should truncate long symbol list: {out}");
    assert!(out.contains("Type1"), "should show first symbols: {out}");
    assert!(!out.contains("Type7"), "should not show symbols past threshold: {out}");
}

#[test]
fn query_deps_lists_co_package_files_of_a_single_go_package() {
    let mut graph = DepsGraph { version: CACHE_VERSION, fingerprint: String::new(), graph: FileMap::new() };
    graph.graph.insert("lib/b.go".to_string(), fi(vec![]));
    graph.graph.insert("lib/a.go".to_string(), fi(vec![]));
    graph.graph.insert("lib/c.go".to_string(), fi(vec![]));
    let out = query_deps(&graph, "lib/b.go", 1);
    assert!(out.ends_with("external:\nco-package:\n  lib/a.go\n  lib/c.go\n"), "{out}");

    graph.graph.insert("cmd/main.go".to_string(), fi(vec![]));
    let out = query_deps(&graph, "lib/b.go", 1);
    assert!(!out.contains("co-package:"), "two packages: {out}");

    let mut alone = DepsGraph { version: CACHE_VERSION, fingerprint: String::new(), graph: FileMap::new() };
    alone.graph.insert("main.go".to_string(), fi(vec![]));
    assert!(!query_deps(&alone, "main.go", 1).contains("co-package:"));
}
