use taoki::cache::compute_fingerprint;
use taoki::deps::pathmap::PathMap;

#[test]
fn fingerprint_changes_on_file_list_change() {
    let crate_map = PathMap::new();
    let go_map = PathMap::new();
    let files1 = vec!["src/a.rs".to_string(), "src/b.rs".to_string()];
    let files2 = vec!["src/a.rs".to_string(), "src/b.rs".to_string(), "src/c.rs".to_string()];
    let fp1 = compute_fingerprint(&files1, &crate_map, &go_map);
    let fp2 = compute_fingerprint(&files2, &crate_map, &go_map);
    assert_ne!(fp1, fp2, "adding a file should change fingerprint");
}

#[test]
fn fingerprint_stable_when_nothing_changes() {
    let crate_map = PathMap::new();
    let go_map = PathMap::new();
    let files = vec!["src/a.rs".to_string(), "src/b.rs".to_string()];
    let fp1 = compute_fingerprint(&files, &crate_map, &go_map);
    let fp2 = compute_fingerprint(&files, &crate_map, &go_map);
    assert_eq!(fp1, fp2);
}

#[test]
fn fingerprint_changes_on_crate_map_change() {
    let go_map = PathMap::new();
    let files = vec!["src/a.rs".to_string()];
    let mut crate_map1 = PathMap::new();
    crate_map1.insert("my_crate".to_string(), "crates/my-crate".to_string());
    let crate_map2 = PathMap::new();
    let fp1 = compute_fingerprint(&files, &crate_map1, &go_map);
    let fp2 = compute_fingerprint(&files, &crate_map2, &go_map);
    assert_ne!(fp1, fp2, "crate map change should change fingerprint");
}

#[test]
fn fingerprint_order_independent() {
    let crate_map = PathMap::new();
    let go_map = PathMap::new();
    let files1 = vec!["src/b.rs".to_string(), "src/a.rs".to_string()];
    let files2 = vec!["src/a.rs".to_string(), "src/b.rs".to_string()];
    assert_eq!(
        compute_fingerprint(&files1, &crate_map, &go_map),
        compute_fingerprint(&files2, &crate_map, &go_map),
    );
}

#[test]
fn fingerprint_changes_on_go_module_map_change() {
    let crate_map = PathMap::new();
    let files = vec!["cmd/main.go".to_string()];
    let mut go_map1 = PathMap::new();
    go_map1.insert("github.com/owner/repo".to_string(), "".to_string());
    let go_map2 = PathMap::new();
    let fp1 = compute_fingerprint(&files, &crate_map, &go_map1);
    let fp2 = compute_fingerprint(&files, &crate_map, &go_map2);
    assert_ne!(fp1, fp2, "go module map change should change fingerprint");
}
