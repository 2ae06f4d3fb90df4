use taoki::deps::pathmap::PathMap;
use taoki::deps::resolve::{find_crate_root, resolve_import};
use taoki::index::Language;

#[test]
fn rust_crate_import_resolves() {
    let all_files = vec![
        "src/codemap.rs".to_string(),
        "src/index/mod.rs".to_string(),
        "src/mcp.rs".to_string(),
    ];
    let result =
        resolve_import("crate::codemap", Language::Rust, "src/mcp.rs", &all_files, None, None);
    assert_eq!(result, Some("src/codemap.rs".to_string()));
}

#[test]
fn rust_external_import_unresolved() {
    let all_files = vec!["src/main.rs".to_string()];
    let result = resolve_import(
        "serde::Serialize",
        Language::Rust,
        "src/main.rs",
        &all_files,
        None,
        None,
    );
    assert_eq!(result, None);
}

#[test]
fn python_relative_import_resolves() {
    let all_files = vec!["src/auth.py".to_string(), "src/api.py".to_string()];
    let result = resolve_import(".auth", Language::Python, "src/api.py", &all_files, None, None);
    assert_eq!(result, Some("src/auth.py".to_string()));
}

#[test]
fn ts_relative_import_resolves() {
    let all_files = vec!["src/utils.ts".to_string(), "src/main.ts".to_string()];
    let result =
        resolve_import("./utils", Language::TypeScript, "src/main.ts", &all_files, None, None);
    assert_eq!(result, Some("src/utils.ts".to_string()));
}

#[test]
fn ts_bare_import_is_external() {
    let all_files = vec!["src/main.ts".to_string()];
    let result =
        resolve_import("express", Language::TypeScript, "src/main.ts", &all_files, None, None);
    assert_eq!(result, None);
}

#[test]
fn java_import_resolves_internal_class() {
    let all_files = vec!["src/main/java/com/example/Foo.java".to_string()];
    let result = resolve_import(
        "com.example.Foo",
        Language::Java,
        "src/main/java/com/example/App.java",
        &all_files,
        None,
        None,
    );
    assert_eq!(
        result,
        Some("src/main/java/com/example/Foo.java".to_string())
    );
}

#[test]
fn ts_d_ts_resolves() {
    let all_files = vec!["src/types.d.ts".to_string()];
    let result =
        resolve_import("./types", Language::TypeScript, "src/main.ts", &all_files, None, None);
    assert_eq!(result, Some("src/types.d.ts".to_string()));
}

#[test]
fn find_crate_root_matches_longest_prefix() {
    let mut map = PathMap::new();
    map.insert("parent_crate".to_string(), "parent".to_string());
    map.insert(
        "nested_tool".to_string(),
        "parent/tools/nested".to_string(),
    );
    let result = find_crate_root("parent/tools/nested/src/main.rs", &map);
    assert_eq!(result.unwrap().0, "nested_tool");
    let result2 = find_crate_root("parent/src/lib.rs", &map);
    assert_eq!(result2.unwrap().0, "parent_crate");
}

#[test]
fn resolve_rust_workspace_crate_import() {
    let all_files = vec![
        "crate-a/src/lib.rs".to_string(),
        "crate-a/src/utils.rs".to_string(),
        "crate-b/src/lib.rs".to_string(),
        "crate-b/src/types.rs".to_string(),
    ];
    let mut crate_map = PathMap::new();
    crate_map.insert("crate_a".to_string(), "crate-a".to_string());
    crate_map.insert("crate_b".to_string(), "crate-b".to_string());

    // crate:: import from within crate-a
    let result = resolve_import(
        "crate::utils",
        Language::Rust,
        "crate-a/src/lib.rs",
        &all_files,
        Some(&crate_map),
        None,
    );
    assert_eq!(result, Some("crate-a/src/utils.rs".to_string()));

    // Cross-crate import
    let result = resolve_import(
        "crate_b::types",
        Language::Rust,
        "crate-a/src/lib.rs",
        &all_files,
        Some(&crate_map),
        None,
    );
    assert_eq!(result, Some("crate-b/src/types.rs".to_string()));
}

#[test]
fn resolve_rust_single_crate_fallback() {
    let all_files = vec!["src/mcp.rs".to_string(), "src/index/mod.rs".to_string()];
    // No crate map -- single crate
    let result =
        resolve_import("crate::mcp", Language::Rust, "src/main.rs", &all_files, None, None);
    assert_eq!(result, Some("src/mcp.rs".to_string()));
}

#[test]
fn resolve_rust_external_with_crate_map() {
    let all_files = vec!["src/lib.rs".to_string()];
    let crate_map = PathMap::new();
    let result = resolve_import(
        "serde::Serialize",
        Language::Rust,
        "src/lib.rs",
        &all_files,
        Some(&crate_map),
        None,
    );
    assert_eq!(result, None);
}

#[test]
fn resolve_rust_binary_imports_own_lib() {
    let all_files = vec![
        "src/main.rs".to_string(),
        "src/lib.rs".to_string(),
        "src/mcp.rs".to_string(),
    ];
    let mut crate_map = PathMap::new();
    crate_map.insert("taoki".to_string(), "".to_string());
    let result = resolve_import(
        "taoki::mcp",
        Language::Rust,
        "src/main.rs",
        &all_files,
        Some(&crate_map),
        None,
    );
    assert_eq!(result, Some("src/mcp.rs".to_string()));
}

#[test]
fn find_crate_root_file_outside_workspace() {
    let mut map = PathMap::new();
    map.insert("my_crate".to_string(), "crates/my-crate".to_string());
    let result = find_crate_root("scripts/build.rs", &map);
    assert!(
        result.is_none(),
        "file outside all crate dirs should return None"
    );
}

#[test]
fn python_absolute_import_flat_layout_resolves() {
    let all_files = vec![
        "canopi/enrichment/merge.py".to_string(),
        "canopi/enrichment/__init__.py".to_string(),
        "canopi/__init__.py".to_string(),
    ];
    let result = resolve_import(
        "canopi.enrichment.merge",
        Language::Python,
        "canopi/pipeline.py",
        &all_files,
        None,
        None,
    );
    assert_eq!(result, Some("canopi/enrichment/merge.py".to_string()));
}

#[test]
fn python_absolute_import_src_layout_resolves() {
    // The reported bug: package is under src/, but resolver was generating bare paths
    let all_files = vec![
        "src/canopi/enrichment/merge.py".to_string(),
        "src/canopi/enrichment/__init__.py".to_string(),
        "src/canopi/__init__.py".to_string(),
    ];
    let result = resolve_import(
        "canopi.enrichment.merge",
        Language::Python,
        "src/canopi/pipeline.py",
        &all_files,
        None,
        None,
    );
    assert_eq!(result, Some("src/canopi/enrichment/merge.py".to_string()));
}

#[test]
fn python_absolute_import_package_resolves() {
    // Import resolves to __init__.py when no direct .py match
    let all_files = vec![
        "src/canopi/__init__.py".to_string(),
        "src/canopi/enrichment/__init__.py".to_string(),
    ];
    let result = resolve_import(
        "canopi.enrichment",
        Language::Python,
        "src/canopi/pipeline.py",
        &all_files,
        None,
        None,
    );
    assert_eq!(
        result,
        Some("src/canopi/enrichment/__init__.py".to_string())
    );
}

#[test]
fn python_absolute_import_custom_layout_resolves() {
    // Source root is discovered via __init__.py, not hardcoded directory names.
    // Works for any layout — "backend/", "code/", or any arbitrary prefix.
    let all_files = vec![
        "backend/mypackage/__init__.py".to_string(),
        "backend/mypackage/utils.py".to_string(),
    ];
    let result = resolve_import(
        "mypackage.utils",
        Language::Python,
        "backend/mypackage/main.py",
        &all_files,
        None,
        None,
    );
    assert_eq!(result, Some("backend/mypackage/utils.py".to_string()));
}

#[test]
fn python_namespace_package_flat_resolves() {
    // Namespace packages (no __init__.py) resolve via flat layout fallback
    let all_files = vec!["mylib/core.py".to_string()];
    let result = resolve_import(
        "mylib.core",
        Language::Python,
        "app.py",
        &all_files,
        None,
        None,
    );
    assert_eq!(result, Some("mylib/core.py".to_string()));
}

#[test]
fn go_resolves_internal_package() {
    let all_files = vec![
        "pkg/parser/parser.go".to_string(),
        "pkg/parser/ast.go".to_string(),
        "cmd/main.go".to_string(),
    ];
    let mut module_map = PathMap::new();
    module_map.insert(
        "github.com/owner/repo".to_string(),
        "".to_string(),
    );
    let result = resolve_import(
        "github.com/owner/repo/pkg/parser",
        Language::Go,
        "cmd/main.go",
        &all_files,
        None,
        Some(&module_map),
    );
    assert!(
        result == Some("pkg/parser/parser.go".to_string())
            || result == Some("pkg/parser/ast.go".to_string()),
        "expected a file in pkg/parser/, got: {result:?}"
    );
}

#[test]
fn go_external_import_returns_none() {
    let all_files = vec!["cmd/main.go".to_string()];
    let mut module_map = PathMap::new();
    module_map.insert(
        "github.com/owner/repo".to_string(),
        "".to_string(),
    );
    let result = resolve_import(
        "github.com/some/external/pkg",
        Language::Go,
        "cmd/main.go",
        &all_files,
        None,
        Some(&module_map),
    );
    assert_eq!(result, None);
}

#[test]
fn go_resolves_submodule_package() {
    // Monorepo: go.mod in a subdirectory
    let all_files = vec![
        "backend/internal/service/service.go".to_string(),
        "backend/cmd/main.go".to_string(),
    ];
    let mut module_map = PathMap::new();
    module_map.insert(
        "github.com/owner/repo/backend".to_string(),
        "backend".to_string(),
    );
    let result = resolve_import(
        "github.com/owner/repo/backend/internal/service",
        Language::Go,
        "backend/cmd/main.go",
        &all_files,
        None,
        Some(&module_map),
    );
    assert_eq!(
        result,
        Some("backend/internal/service/service.go".to_string())
    );
}

#[test]
fn java_resolve_guava_style_layout() {
    let all_files = vec![
        "guava/src/com/google/common/collect/ImmutableMap.java".to_string(),
        "guava/src/com/google/common/collect/ImmutableList.java".to_string(),
    ];
    let result = resolve_import(
        "com.google.common.collect.ImmutableMap",
        Language::Java,
        "guava/src/com/google/common/collect/ImmutableList.java",
        &all_files,
        None,
        None,
    );
    assert_eq!(
        result,
        Some("guava/src/com/google/common/collect/ImmutableMap.java".to_string()),
        "should resolve via suffix matching regardless of source root"
    );
}

#[test]
fn java_resolve_spring_boot_deep_layout() {
    let all_files = vec![
        "core/spring-boot/src/main/java/org/springframework/boot/SpringApplication.java"
            .to_string(),
        "core/spring-boot/src/main/java/org/springframework/boot/Banner.java".to_string(),
    ];
    let result = resolve_import(
        "org.springframework.boot.Banner",
        Language::Java,
        "core/spring-boot/src/main/java/org/springframework/boot/SpringApplication.java",
        &all_files,
        None,
        None,
    );
    assert_eq!(
        result,
        Some(
            "core/spring-boot/src/main/java/org/springframework/boot/Banner.java".to_string()
        ),
    );
}

#[test]
fn java_resolve_static_import() {
    let all_files = vec!["src/main/java/com/example/Preconditions.java".to_string()];
    let result = resolve_import(
        "com.example.Preconditions.checkNotNull",
        Language::Java,
        "src/main/java/com/example/App.java",
        &all_files,
        None,
        None,
    );
    assert_eq!(
        result,
        Some("src/main/java/com/example/Preconditions.java".to_string()),
        "should strip method name and resolve to class file"
    );
}

#[test]
fn java_resolve_deep_static_import() {
    let all_files = vec!["src/com/example/ImmutableMap.java".to_string()];
    let result = resolve_import(
        "com.example.ImmutableMap.Builder.of",
        Language::Java,
        "src/com/example/App.java",
        &all_files,
        None,
        None,
    );
    assert_eq!(
        result,
        Some("src/com/example/ImmutableMap.java".to_string()),
        "should progressively strip segments to find the file"
    );
}

#[test]
fn java_resolve_wildcard_import() {
    let all_files = vec![
        "src/main/java/org/springframework/boot/SpringApplication.java".to_string(),
        "src/main/java/org/springframework/boot/Banner.java".to_string(),
    ];
    let result = resolve_import(
        "org.springframework.boot.*",
        Language::Java,
        "src/main/java/org/springframework/boot/autoconfigure/App.java",
        &all_files,
        None,
        None,
    );
    assert!(
        result.is_some(),
        "wildcard import should resolve to some file in the package"
    );
    let resolved = result.unwrap();
    assert!(
        resolved.contains("org/springframework/boot/"),
        "should be in the correct package directory: {resolved}"
    );
}

#[test]
fn java_resolve_boundary_no_false_match() {
    let all_files = vec!["src/mycom/example/Bar.java".to_string()];
    let result = resolve_import(
        "com.example.Bar",
        Language::Java,
        "src/com/example/Foo.java",
        &all_files,
        None,
        None,
    );
    assert_eq!(result, None, "should not match across word boundaries");
}

#[test]
fn java_resolve_flat_layout() {
    let all_files = vec!["com/example/Foo.java".to_string()];
    let result = resolve_import(
        "com.example.Foo",
        Language::Java,
        "com/example/Bar.java",
        &all_files,
        None,
        None,
    );
    assert_eq!(result, Some("com/example/Foo.java".to_string()));
}
