use taoki::cache::{compute_fingerprint, content_hash};
use taoki::codemap::{cache_path, file_result, map_file, render_code_map, truncate_list, CodeMapError, FileResult, MapEntry};
use taoki::deps::filemap::FileMap;
use taoki::deps::graph::{build_deps_graph, SourceFile};
use taoki::deps::manifest::{add_crate_manifest, add_go_manifest, extract_go_module_name, extract_package_name, is_named};
use taoki::deps::pathmap::PathMap;
use taoki::deps::query::query_deps;
use taoki::deps::{current_graph, deps_cache_path, DepsGraph};
use taoki::index::api::{extract_public_api, IndexError};
use taoki::index::outline::build_skeleton;
use taoki::index::rust_items::{fn_signature, has_test_attr, relevant_attr_texts, vis_prefix};
use taoki::index::syntax::parse_source;
use taoki::index::{extract_all, index_source, truncate, Language};
use taoki::mcp::tools::{
    call_radar, collapsed_test_skeleton, fresh_skeleton, xray_cache_path, xray_language, xray_size_error,
    xray_skeleton,
};
use taoki::walk::{glob_filter, keeps_file};
use taoki::mcp::{method_not_found, ripple_depth, route_request, tool_named, unknown_tool, Route, Tool};

// ---- laws on concrete values ----

#[test]
fn law_truncated_fits_its_limit() {
    let s = "abcdefghij";
    for max in 3..12 {
        let t = truncate(s, max);
        assert!(t.chars().count() <= max, "{t:?} longer than {max}");
    }
    assert_eq!(truncate(s, 10), s);
    assert_eq!(truncate(s, 7), "abcd...");
}

#[test]
fn law_doc_line_fits_120() {
    let src = format!("def long_doc():\n    \"\"\"{}\"\"\"\n    pass\n", "a".repeat(130));
    let out = index_source(src.as_bytes(), Language::Python).unwrap();
    let doc = out.lines().find(|l| l.contains("/// ")).unwrap();
    let text = doc.trim().strip_prefix("/// ").unwrap();
    assert!(text.ends_with("..."));
    assert_eq!(text.chars().count(), 120);
}

#[test]
fn law_fingerprint_ignores_file_order_three_files() {
    let a = vec!["c.rs".to_string(), "a.rs".to_string(), "b.rs".to_string()];
    let b = vec!["b.rs".to_string(), "c.rs".to_string(), "a.rs".to_string()];
    let m = PathMap::new();
    assert_eq!(compute_fingerprint(&a, &m, &m), compute_fingerprint(&b, &m, &m));
}

#[test]
fn law_unchanged_file_keeps_cached_entry() {
    let files = vec!["a.py".to_string(), "b.py".to_string()];
    let m = PathMap::new();
    let srcs = vec![
        SourceFile { rel: "a.py".to_string(), lang: Language::Python, source: b"import b\n".to_vec() },
        SourceFile { rel: "b.py".to_string(), lang: Language::Python, source: b"x = 1\n".to_vec() },
    ];
    let first = build_deps_graph(&srcs, &files, &m, &m, None);
    let second = build_deps_graph(&srcs, &files, &m, &m, Some(&first));
    let e1 = first.graph.get("a.py").unwrap();
    let e2 = second.graph.get("a.py").unwrap();
    assert_eq!(e1.content_hash, e2.content_hash);
    assert_eq!(e1.imports.len(), e2.imports.len());
    assert_eq!(e2.imports[0].path, "b.py");
    assert!(!e2.imports[0].external);
}

// ---- skeletons ----

#[test]
fn extract_all_gives_api_and_skeleton() {
    let src = b"class Foo:\n    pass\n\ndef bar(x):\n    return x\n\ndef _private():\n    pass\n";
    let (api, skeleton) = extract_all(src, Language::Python).unwrap();
    assert_eq!(api.types, vec!["Foo".to_string()]);
    assert_eq!(api.functions, vec!["bar(x)".to_string()]);
    assert!(skeleton.contains("classes:\n  Foo [1-2]\n"), "{skeleton}");
    assert!(skeleton.contains("fns:\n  bar(x) [4-5]\n"), "{skeleton}");
}

#[test]
fn build_skeleton_exact_python() {
    let src = b"import os\n\ndef f(a):\n    g(a)\n";
    let tree = parse_source(src, Language::Python).unwrap();
    let out = build_skeleton(&tree, src, Language::Python);
    assert_eq!(out, "imports: [1]\n  os\n\nfns:\n  f(a) [3-4]\n    \u{2192} calls: g\n");
}

#[test]
fn go_grouped_imports_consolidate() {
    let src = b"package main\n\nimport (\n\t\"fmt\"\n\t\"net/http\"\n)\n";
    let out = index_source(src, Language::Go).unwrap();
    assert_eq!(out, "imports: [4-5]\n  fmt\n  net/http\n");
}

#[test]
fn java_import_and_package() {
    let src = b"package com.example;\n\nimport java.util.List;\n\npublic class A {}\n";
    let out = index_source(src, Language::Java).unwrap();
    assert!(out.contains("imports: [3]\n  java::util::List\n"), "{out}");
    assert!(out.contains("mod:\n  com.example [1]\n"), "{out}");
    assert!(out.contains("classes:\n  public class A [5]\n"), "{out}");
}

#[test]
fn ts_struct_fields_trimmed_and_exported() {
    let src = b"export interface P {\n  x: number;\n  y: string,\n}\n";
    let out = index_source(src, Language::TypeScript).unwrap();
    assert!(out.contains("types:\n  export interface P [1-4]\n    x: number\n    y: string\n"), "{out}");
}

#[test]
fn go_struct_fields_cut_after_eight() {
    let mut src = String::from("package p\n\ntype S struct {\n");
    for i in 0..10 {
        src.push_str(&format!("\tF{i} int\n"));
    }
    src.push_str("}\n");
    let out = index_source(src.as_bytes(), Language::Go).unwrap();
    assert!(out.contains("    F7 int\n    ...\n"), "{out}");
    assert!(!out.contains("F8 int"), "{out}");
}

// ---- manifests ----

#[test]
fn package_name_of_cargo_manifest() {
    let c = "[package]\nname = \"my-crate\"\nversion = \"0.1.0\"\n\n[[bin]]\nname = \"my-binary\"\n";
    assert_eq!(extract_package_name(c), Some("my-crate".to_string()));
    assert_eq!(extract_package_name("[workspace]\nmembers = [\"a\"]\n"), None);
    assert_eq!(extract_package_name("[dependencies]\nname = \"x\"\n[package]\nname=\"y\"\n"), Some("y".to_string()));
}

#[test]
fn go_module_name_of_go_mod() {
    assert_eq!(
        extract_go_module_name("module github.com/owner/myrepo\n\ngo 1.21\n"),
        Some("github.com/owner/myrepo".to_string())
    );
    assert_eq!(extract_go_module_name("go 1.21\n"), None);
    assert_eq!(extract_go_module_name("module   \nmodule x\n"), Some("x".to_string()));
}

#[test]
fn crate_map_from_manifests() {
    let mut m = PathMap::new();
    add_crate_manifest(&mut m, "/repo", "/repo/crate-a/Cargo.toml", "[package]\nname = \"crate-a\"\n");
    add_crate_manifest(&mut m, "/repo", "/repo/Cargo.toml", "[workspace]\nmembers = [\"crate-a\"]\n");
    assert_eq!(m.len(), 1);
    assert_eq!(m.get("crate_a"), Some(&"crate-a".to_string()));
    assert!(is_named("/repo/crate-a/Cargo.toml", "Cargo.toml"));
    assert!(!is_named("/repo/go.mod", "Cargo.toml"));
    let mut g = PathMap::new();
    add_go_manifest(&mut g, "/repo", "/repo/go.mod", "module example.com/x\n");
    assert_eq!(g.get("example.com/x"), Some(&"".to_string()));
}

// ---- caches ----

#[test]
fn content_hash_of_empty_input() {
    assert_eq!(content_hash(b""), "af1349b9f5f9a1a6a0404dea36dcc9499bcb25c9adc112b7cc9a93cae41f3262");
    assert_ne!(content_hash(b"abc"), "abc");
}

#[test]
fn cache_paths_under_root() {
    assert_eq!(deps_cache_path("/r"), "/r/.cache/taoki/deps.json");
    assert_eq!(cache_path("/r"), "/r/.cache/taoki/radar.json");
    assert_eq!(xray_cache_path("/r"), "/r/.cache/taoki/xray.json");
}

#[test]
fn stale_graph_versions_are_dropped() {
    let g = DepsGraph { version: 2, fingerprint: String::new(), graph: FileMap::new() };
    assert!(current_graph(g).is_none());
    let g = DepsGraph { version: 3, fingerprint: String::new(), graph: FileMap::new() };
    assert!(current_graph(g).is_some());
}

// ---- tools ----

#[test]
fn xray_errors() {
    assert_eq!(xray_language("").unwrap_err(), "missing required parameter: path");
    assert_eq!(xray_language("notes.txt").unwrap_err(), "unsupported file type: .txt");
    assert_eq!(xray_language("a/b.py").unwrap(), Language::Python);
    assert_eq!(xray_size_error(3 * 1024 * 1024), Some("file too large (3145728 bytes, max 2097152)".to_string()));
    assert_eq!(xray_size_error(10), None);
}

#[test]
fn xray_collapses_test_files_and_indexes_others() {
    let src = b"def test_login():\n    assert True\n\ndef test_logout():\n    pass\n";
    assert_eq!(xray_skeleton("test_auth.py", Language::Python, src).unwrap(), "tests: [1-6]\n");
    assert_eq!(collapsed_test_skeleton(b"a\nb"), "tests: [1-2]\n");
    let out = xray_skeleton("auth.py", Language::Python, src).unwrap();
    assert_eq!(out, "tests: [1-5]\n");
    assert_eq!(xray_skeleton("lib.rs", Language::Rust, b"pub fn f() {}").unwrap(), "fns:\n  pub f() [1]\n");
}

#[test]
fn fresh_skeleton_needs_same_hash() {
    let entry = ("h1".to_string(), "fns:\n".to_string());
    assert_eq!(fresh_skeleton("h1", Some(&entry)), Some("fns:\n".to_string()));
    assert_eq!(fresh_skeleton("h2", Some(&entry)), None);
    assert_eq!(fresh_skeleton("h1", None), None);
}

#[test]
fn radar_answers() {
    assert_eq!(call_radar("", Ok("x".to_string())).unwrap_err(), "missing required parameter: path");
    assert_eq!(call_radar("/r", Ok("map".to_string())).unwrap(), "map");
    let e = call_radar("/r", Err(CodeMapError::PathNotFound("/nope".to_string()))).unwrap_err();
    assert!(e.contains("/nope"), "{e}");
}

#[test]
fn routes_and_tools() {
    assert_eq!(route_request("initialize", true), Some(Route::Initialize));
    assert_eq!(route_request("tools/list", true), Some(Route::ToolsList));
    assert_eq!(route_request("tools/call", true), Some(Route::ToolsCall));
    assert_eq!(route_request("nope", true), Some(Route::MethodNotFound));
    assert_eq!(route_request("notifications/initialized", false), None);
    assert_eq!(tool_named("xray"), Some(Tool::Xray));
    assert_eq!(tool_named("radar"), Some(Tool::Radar));
    assert_eq!(tool_named("ripple"), Some(Tool::Ripple));
    assert_eq!(tool_named("index"), None);
    let r = unknown_tool("index");
    assert!(r.is_error);
    assert_eq!(r.content[0].text, "unknown tool: index");
    let e = method_not_found("foo");
    assert_eq!(e.code, -32601);
    assert_eq!(e.message, "method not found: foo");
    assert_eq!(ripple_depth(None), 1);
    assert_eq!(ripple_depth(Some(0)), 1);
    assert_eq!(ripple_depth(Some(2)), 2);
    assert_eq!(ripple_depth(Some(9)), 3);
}

// ---- radar ----

#[test]
fn radar_file_results_and_tags() {
    let r = file_result("test_auth.py", b"def test_login():\n    pass\n", Language::Python);
    assert!(!r.parse_error);
    assert_eq!(r.lines, 3);
    assert!(r.tags.contains(&"tests".to_string()), "{:?}", r.tags);
    let r = file_result("errors.py", b"class MyError(Exception):\n    pass\n", Language::Python);
    assert!(r.tags.contains(&"error-types".to_string()), "{:?}", r.tags);
    assert!(r.tags.contains(&"data-models".to_string()), "{:?}", r.tags);
    let r = file_result("main.py", b"def main():\n    pass\n", Language::Python);
    assert!(r.tags.contains(&"entry-point".to_string()), "{:?}", r.tags);
    let r = file_result("pkg/__init__.py", b"from .a import b\n", Language::Python);
    assert!(r.tags.contains(&"module-root".to_string()), "{:?}", r.tags);
}

#[test]
fn radar_truncates_long_function_lists() {
    let items: Vec<String> = (0..15).map(|i| format!("func_{i}()")).collect();
    let (shown, more) = truncate_list(&items, 8, 6);
    assert_eq!(shown.len(), 6);
    assert_eq!(more, 9);
    let mut src = String::new();
    for i in 0..15 {
        src.push_str(&format!("def func_{i}():\n    pass\n"));
    }
    let r = file_result("big.py", src.as_bytes(), Language::Python);
    let map = render_code_map(vec![r]);
    assert!(map.contains("... +9 more"), "{map}");
    assert!(map.contains("use xray for full list"), "{map}");
}

#[test]
fn radar_sorts_by_path_and_groups_large_repos() {
    let mk = |p: &str| FileResult {
        path: p.to_string(),
        lines: 1,
        public_types: vec![],
        public_functions: vec!["f()".to_string()],
        tags: vec![],
        parse_error: false,
    };
    let map = render_code_map(vec![mk("b.py"), mk("a.py")]);
    assert!(map.find("a.py").unwrap() < map.find("b.py").unwrap(), "{map}");
    let mut many = Vec::new();
    for i in 0..110 {
        many.push(mk(&format!("src/mod_{}/file_{i}.py", i / 10)));
    }
    let map = render_code_map(many);
    assert!(map.contains("src/mod_0/"), "{map}");
    assert!(!map.contains("public_types:"), "{map}");
}

#[test]
fn law_map_ignores_file_order_on_examples() {
    let mk = |p: &str, n: usize| FileResult {
        path: p.to_string(),
        lines: n,
        public_types: vec![format!("T{n}")],
        public_functions: vec![],
        tags: vec!["tests".to_string()],
        parse_error: false,
    };
    let forward = vec![mk("a.rs", 1), mk("b/c.rs", 2), mk("b/a.rs", 3), mk("z.py", 4)];
    let backward = vec![mk("z.py", 4), mk("b/a.rs", 3), mk("b/c.rs", 2), mk("a.rs", 1)];
    assert_eq!(render_code_map(forward), render_code_map(backward));
    let mut many_forward = Vec::new();
    for i in 0..120 {
        many_forward.push(mk(&format!("d{}/f{i}.rs", i % 7), i));
    }
    let mut many_backward: Vec<FileResult> = Vec::new();
    for i in (0..120).rev() {
        many_backward.push(mk(&format!("d{}/f{i}.rs", i % 7), i));
    }
    assert_eq!(render_code_map(many_forward), render_code_map(many_backward));
}

#[test]
fn rust_item_helpers_read_attributes_visibility_and_signature() {
    let src = b"#[derive(Debug)]\n#[tokio::test]\n#[allow(unused)]\npub(crate) fn add(a: i32, b: i32) -> i32 { a + b }\nfn bare() {}\n";
    let tree = parse_source(src, Language::Rust).unwrap();
    let kids = &tree.children;
    assert_eq!(kids.len(), 5);
    let attrs = &kids[0..3];
    assert!(has_test_attr(attrs, src));
    assert!(!has_test_attr(&kids[2..3], src));
    assert_eq!(relevant_attr_texts(attrs, src), vec!["#[derive(Debug)]".to_string()]);
    assert_eq!(vis_prefix(&kids[3], src), "pub(crate)");
    assert_eq!(vis_prefix(&kids[4], src), "");
    assert_eq!(fn_signature(&kids[3], src).as_deref(), Some("add(a: i32, b: i32) -> i32"));
    assert_eq!(fn_signature(&kids[4], src).as_deref(), Some("bare()"));
    assert_eq!(fn_signature(&kids[0], src), None);
}

#[test]
fn map_file_reuses_fresh_cache_entries_only() {
    let src = b"def run():\n    pass\n";
    let fresh = MapEntry {
        hash: content_hash(src),
        lines: 40,
        public_types: vec!["Cached".to_string()],
        public_functions: vec![],
        tags: vec!["tests".to_string()],
    };
    let (r, e) = map_file("a.py", src, Some(Language::Python), Some(&fresh));
    let r = r.unwrap();
    assert_eq!((r.path.as_str(), r.lines, r.parse_error), ("a.py", 40, false));
    assert_eq!(r.public_types, vec!["Cached".to_string()]);
    let e = e.unwrap();
    assert_eq!((e.hash, e.lines), (content_hash(src), 40));

    let stale = MapEntry { hash: "0".repeat(64), ..fresh };
    let (r, e) = map_file("a.py", src, Some(Language::Python), Some(&stale));
    let r = r.unwrap();
    assert_eq!((r.lines, r.parse_error), (3, false));
    assert_eq!(r.public_functions, vec!["run()".to_string()]);
    assert_eq!(e.unwrap().public_functions, vec!["run()".to_string()]);

    let (r, e) = map_file("notes.txt", src, None, None);
    assert!(r.is_none() && e.is_none());

    let (r, e) = map_file("go.go", b"package x\nfunc Run() {}\n", Some(Language::Go), None);
    assert_eq!(r.unwrap().public_functions, vec!["Run()".to_string()]);
    assert_eq!(e.unwrap().hash, content_hash(b"package x\nfunc Run() {}\n"));
}

#[test]
fn walk_keeps_supported_files_that_a_glob_matches() {
    let none = glob_filter(&[]).ok().unwrap();
    assert!(none.set.is_none());
    assert!(keeps_file(&none, "lib/x.py"));
    assert!(!keeps_file(&none, "notes.txt"));
    let some = glob_filter(&["src/**/*.rs".to_string(), "*.go".to_string()]).ok().unwrap();
    assert!(keeps_file(&some, "src/a/b.rs"));
    assert!(keeps_file(&some, "main.go"));
    assert!(!keeps_file(&some, "lib/x.rs"));
    assert!(!keeps_file(&some, "src/a/readme.md"));
    match glob_filter(&["ok/*.py".to_string(), "a[".to_string()]) {
        Err(CodeMapError::InvalidGlob(g)) => assert_eq!(g, "a["),
        _ => panic!("the unclosed class is refused"),
    }
}

#[test]
fn law_map_cache_gives_back_the_file_on_example() {
    let src = b"class Store:\n    pass\n\ndef load(path):\n    return path\n";
    let (first, entry) = map_file("pkg/store.py", src, Some(Language::Python), None);
    let first = first.unwrap();
    let entry = entry.unwrap();
    let (again, _) = map_file("pkg/store.py", src, Some(Language::Python), Some(&entry));
    let again = again.unwrap();
    assert_eq!(again.path, first.path);
    assert_eq!(again.lines, first.lines);
    assert_eq!(again.public_types, first.public_types);
    assert_eq!(again.public_functions, first.public_functions);
    assert_eq!(again.tags, first.tags);
    assert_eq!(again.parse_error, first.parse_error);
    assert_eq!(first.public_types, vec!["Store".to_string()]);
}

#[test]
fn law_cached_graph_is_fresh_with_a_new_importer() {
    let m = PathMap::new();
    let files0 = vec!["a.py".to_string(), "b.py".to_string()];
    let srcs0 = vec![
        SourceFile { rel: "a.py".to_string(), lang: Language::Python, source: b"import b\n".to_vec() },
        SourceFile { rel: "b.py".to_string(), lang: Language::Python, source: b"x = 1\n".to_vec() },
    ];
    let first = build_deps_graph(&srcs0, &files0, &m, &m, None);
    let files = vec!["a.py".to_string(), "b.py".to_string(), "c.py".to_string()];
    let mut srcs = vec![
        SourceFile { rel: "a.py".to_string(), lang: Language::Python, source: b"import b\n".to_vec() },
        SourceFile { rel: "b.py".to_string(), lang: Language::Python, source: b"x = 1\n".to_vec() },
    ];
    srcs.push(SourceFile { rel: "c.py".to_string(), lang: Language::Python, source: b"from b import x\n".to_vec() });
    let cached = build_deps_graph(&srcs, &files, &m, &m, Some(&first));
    let fresh = build_deps_graph(&srcs, &files, &m, &m, None);
    assert_eq!(cached.fingerprint, fresh.fingerprint);
    for name in ["a.py", "b.py", "c.py"] {
        let (x, y) = (cached.graph.get(name).unwrap(), fresh.graph.get(name).unwrap());
        assert_eq!(x.content_hash, y.content_hash);
        assert_eq!(x.raw_imports, y.raw_imports);
        let xs: Vec<(String, bool)> = x.imports.iter().map(|i| (i.path.clone(), i.external)).collect();
        let ys: Vec<(String, bool)> = y.imports.iter().map(|i| (i.path.clone(), i.external)).collect();
        assert_eq!(xs, ys);
    }
    let users = query_deps(&cached, "b.py", 1);
    assert!(users.contains("a.py") && users.contains("c.py"), "{users}");
}

#[test]
fn rust_pub_crate_in_public_api() {
    let src = r#"
pub(crate) struct Foo {
    pub(crate) field: i32,
}

pub(crate) fn bar() -> bool { true }

pub struct Visible;

pub(super) fn baz() -> i32 { 42 }

fn private_fn() {}

struct Private;
"#;
    let (types, functions) = extract_public_api(src.as_bytes(), Language::Rust).ok().unwrap();
    // pub(crate) items should now appear
    assert!(types.contains(&"Foo".to_string()), "missing pub(crate) struct Foo");
    assert!(types.contains(&"Visible".to_string()), "missing pub struct Visible");
    assert!(!types.contains(&"Private".to_string()), "private struct should be excluded");
    // pub(crate) fn should appear
    assert!(functions.iter().any(|f| f.contains("bar")), "missing pub(crate) fn bar");
    // pub(super) fn should also appear
    assert!(functions.iter().any(|f| f.contains("baz")), "missing pub(super) fn baz");
    // private fn should not
    assert!(!functions.iter().any(|f| f.contains("private_fn")), "private fn should be excluded");
}

#[test]
fn rust_public_api_in_the_map() {
    let src = b"pub struct Foo {}\npub fn bar() {}\nfn private() {}\n";
    let (r, _) = map_file("lib.rs", src, Some(Language::Rust), None);
    let r = r.unwrap();
    assert_eq!(r.public_types, vec!["Foo".to_string()]);
    assert_eq!(r.public_functions, vec!["bar()".to_string()]);
}

#[test]
fn radar_tags_rust_files() {
    let r = file_result("main.rs", b"fn main() {}\n", Language::Rust);
    assert!(r.tags.contains(&"entry-point".to_string()), "{:?}", r.tags);
    let r = file_result("pkg/mod.rs", b"pub fn foo() {}\n", Language::Rust);
    assert!(r.tags.contains(&"module-root".to_string()), "{:?}", r.tags);
    let r = file_result("errors.rs", b"pub enum MyError { Io, Parse }\n", Language::Rust);
    assert!(r.tags.contains(&"error-types".to_string()), "{:?}", r.tags);
    assert_eq!(r.public_types, vec!["MyError".to_string()]);
}
