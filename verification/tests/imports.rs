use taoki::deps::extract::extract_imports;
use taoki::index::Language;

#[test]
fn rust_grouped_use_expands() {
    let source = b"use crate::{a, b::c, self::d, e::{f, g}};\n";
    let imports = extract_imports(source, Language::Rust);
    let paths: Vec<String> = imports.into_iter().map(|(p, _)| p).collect();
    assert!(paths.contains(&"crate::a".to_string()));
    assert!(paths.contains(&"crate::b::c".to_string()));
    assert!(paths.contains(&"crate::d".to_string()));
    assert!(paths.contains(&"crate::e::f".to_string()));
    assert!(paths.contains(&"crate::e::g".to_string()));
}
