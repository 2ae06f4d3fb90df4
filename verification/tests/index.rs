use taoki::index::{is_minified, line_range, truncate};

#[test]
fn line_range_single() {
    assert_eq!(line_range(5, 5), "[5]");
}

#[test]
fn line_range_span() {
    assert_eq!(line_range(5, 10), "[5-10]");
}

#[test]
fn truncate_short_unchanged() {
    assert_eq!(truncate("hello", 60), "hello");
}

#[test]
fn truncate_long_adds_ellipsis() {
    let long = "a".repeat(70);
    let result = truncate(&long, 60);
    assert!(result.ends_with("..."));
    assert!(result.chars().count() <= 60);
}

#[test]
fn truncate_preserves_boundaries() {
    let long = format!("{}{}", "a".repeat(55), "b".repeat(10));
    let result = truncate(&long, 60);
    assert!(result.ends_with("..."));
}

#[test]
fn minified_single_long_line() {
    let source = "a".repeat(600);
    assert!(is_minified(source.as_bytes()));
}

#[test]
fn minified_high_avg_line_length() {
    let line = "a".repeat(600);
    let source = format!("{}\n{}\n", line, line);
    assert!(is_minified(source.as_bytes()));
}

#[test]
fn not_minified_normal_code() {
    let source = "fn main() {\n    println!(\"hello\");\n}\n";
    assert!(!is_minified(source.as_bytes()));
}

#[test]
fn not_minified_empty() {
    assert!(!is_minified(b""));
}

#[test]
fn not_minified_two_long_lines_no_trailing_newline() {
    // Two 300-char lines with one newline, no trailing newline.
    // Avg line length is 300, well under 500 threshold.
    let source = format!("{}\n{}", "a".repeat(300), "b".repeat(300));
    assert!(!is_minified(source.as_bytes()));
}

#[test]
fn not_minified_single_line_under_threshold() {
    let source = "a".repeat(400);
    assert!(!is_minified(source.as_bytes()));
}
