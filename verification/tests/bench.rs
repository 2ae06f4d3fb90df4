use taoki::bench::{format_error_summary, inject_content, validate_repos, ProjectResult, RepoEntry};

#[test]
fn validate_catches_duplicate_names() {
    let repos = vec![
        RepoEntry { name: "foo".into(), url: "https://x.com/foo".into(), sha: "abc".into(), lang: "Rust".into() },
        RepoEntry { name: "foo".into(), url: "https://x.com/bar".into(), sha: "def".into(), lang: "Go".into() },
    ];
    let errors = validate_repos(&repos);
    assert_eq!(errors.len(), 1);
    assert!(errors[0].contains("duplicate name"));
}

#[test]
fn validate_catches_missing_url() {
    let repos = vec![
        RepoEntry { name: "foo".into(), url: "".into(), sha: "abc".into(), lang: "Rust".into() },
    ];
    let errors = validate_repos(&repos);
    assert_eq!(errors.len(), 1);
    assert!(errors[0].contains("missing url"));
}

#[test]
fn validate_accepts_valid_repos() {
    let repos = vec![
        RepoEntry { name: "a".into(), url: "https://a.com".into(), sha: "abc".into(), lang: "Rust".into() },
        RepoEntry { name: "b".into(), url: "https://b.com".into(), sha: "def".into(), lang: "Go".into() },
    ];
    assert!(validate_repos(&repos).is_empty());
}

#[test]
fn inject_content_replaces_between_markers() {
    let content = "before\n<!-- BENCH:START -->\nold data\n<!-- BENCH:END -->\nafter";
    let result = inject_content(content, "| new | data |\n").unwrap();
    assert!(result.contains("| new | data |"));
    assert!(!result.contains("old data"));
    assert!(result.contains("before"));
    assert!(result.contains("after"));
}

#[test]
fn inject_content_errors_on_missing_markers() {
    assert!(inject_content("no markers here", "table").is_err());
}

fn result_with_errors(errors: Vec<(String, usize)>) -> ProjectResult {
    ProjectResult {
        name: "test".to_string(),
        lang: "rust".to_string(),
        total_files: 100,
        parsed_ok: 100,
        parse_errors: 0,
        skipped: 0,
        empty_skeletons: 0,
        substantial_files: 50,
        total_source_bytes: 5000,
        total_skeleton_bytes: 1000,
        errors,
    }
}

#[test]
fn error_summary_sorts_by_count() {
    let errors = vec![("error A".to_string(), 3), ("error B".to_string(), 7)];
    let results = vec![result_with_errors(errors)];
    let summary = format_error_summary(&results);
    let a_pos = summary.find("error A").unwrap();
    let b_pos = summary.find("error B").unwrap();
    assert!(b_pos < a_pos, "higher-count error should appear first");
}

#[test]
fn error_summary_empty_when_no_errors() {
    let results = vec![result_with_errors(Vec::new())];
    assert!(format_error_summary(&results).is_empty());
}

#[test]
fn error_summary_adds_counts_across_projects_and_breaks_ties_by_message() {
    let first = result_with_errors(vec![("b".to_string(), 2), ("a".to_string(), 1)]);
    let second = result_with_errors(vec![("a".to_string(), 1), ("c".to_string(), 5)]);
    let summary = format_error_summary(&[first, second]);
    assert_eq!(summary, "\nTop errors:\n  5x c\n  2x a\n  2x b\n");
}

#[test]
fn error_summary_keeps_only_ten_messages() {
    let mut errors = Vec::new();
    for i in 0..12usize {
        errors.push((format!("m{:02}", i), i + 1));
    }
    let summary = format_error_summary(&[result_with_errors(errors)]);
    assert_eq!(summary.lines().count(), 12);
    assert!(summary.contains("  12x m11\n"));
    assert!(summary.contains("  3x m02\n"));
    assert!(!summary.contains("m01"));
    assert!(!summary.contains("m00"));
}
