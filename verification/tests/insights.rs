use taoki::index::body::{BodyInsights, MatchInsight};

#[test]
fn test_format_lines_empty() {
    let insights = BodyInsights::default();
    assert!(insights.format_lines().is_empty());
}

#[test]
fn test_format_lines_calls_only() {
    let insights = BodyInsights {
        calls: vec!["bar".into(), "foo".into(), "qux".into()],
        ..BodyInsights::default()
    };
    assert_eq!(insights.format_lines(), vec!["→ calls: bar, foo, qux"]);
}

#[test]
fn test_format_lines_calls_truncated() {
    let calls: Vec<String> = (0..15).map(|i| format!("fn_{i}")).collect();
    let insights = BodyInsights {
        calls,
        ..BodyInsights::default()
    };
    let lines = insights.format_lines();
    assert_eq!(lines.len(), 1);
    assert!(lines[0].ends_with(", ..."));
    // Should contain exactly 12 function names
    assert_eq!(lines[0].matches(',').count(), 12); // 11 commas between 12 items + ", ..."
}

#[test]
fn test_format_lines_methods_truncated() {
    let methods: Vec<String> = (0..12).map(|i| format!("m_{i}")).collect();
    let insights = BodyInsights {
        method_calls: methods,
        ..BodyInsights::default()
    };
    let lines = insights.format_lines();
    assert_eq!(lines.len(), 1);
    assert!(lines[0].starts_with("→ methods: "));
    assert!(lines[0].ends_with(", ..."));
    // Should contain exactly 8 method names (MAX_METHODS)
    assert_eq!(lines[0].matches(',').count(), 8); // 7 commas + ", ..."
}

#[test]
fn test_format_lines_match() {
    let insights = BodyInsights {
        match_arms: vec![MatchInsight {
            target: "cmd".into(),
            arms: vec!["\"start\"".into(), "\"stop\"".into(), "_".into()],
        }],
        ..BodyInsights::default()
    };
    let lines = insights.format_lines();
    assert_eq!(lines, vec!["→ match: cmd → \"start\", \"stop\", _"]);
}

#[test]
fn test_format_lines_errors_with_try() {
    let insights = BodyInsights {
        error_returns: vec!["IoError".into(), "ParseError".into()],
        try_count: 3,
        ..BodyInsights::default()
    };
    let lines = insights.format_lines();
    assert_eq!(lines, vec!["→ errors: IoError, ParseError, 3× ?"]);
}

#[test]
fn test_format_lines_try_only() {
    let insights = BodyInsights {
        try_count: 5,
        ..BodyInsights::default()
    };
    let lines = insights.format_lines();
    assert_eq!(lines, vec!["→ errors: 5× ?"]);
}

#[test]
fn test_format_lines_all_sections() {
    let insights = BodyInsights {
        calls: vec!["alpha".into(), "beta".into()],
        method_calls: vec![],
        match_arms: vec![MatchInsight {
            target: "x".into(),
            arms: vec!["1".into(), "2".into()],
        }],
        error_returns: vec!["Err(NotFound)".into()],
        try_count: 1,
    };
    let lines = insights.format_lines();
    assert_eq!(lines.len(), 3);
    assert_eq!(lines[0], "→ calls: alpha, beta");
    assert_eq!(lines[1], "→ match: x → 1, 2");
    assert_eq!(lines[2], "→ errors: Err(NotFound), 1× ?");
}

#[test]
fn test_format_lines_split_calls_methods() {
    let insights = BodyInsights {
        calls: vec!["HashMap::new".into(), "Ok".into()],
        method_calls: vec!["clone".into(), "push".into()],
        ..BodyInsights::default()
    };
    let lines = insights.format_lines();
    assert_eq!(lines.len(), 2);
    assert_eq!(lines[0], "→ calls: HashMap::new, Ok");
    assert_eq!(lines[1], "→ methods: clone, push");
}

#[test]
fn test_format_lines_calls_only_no_methods_line() {
    let insights = BodyInsights {
        calls: vec!["foo".into()],
        method_calls: vec![],
        ..BodyInsights::default()
    };
    let lines = insights.format_lines();
    assert_eq!(lines.len(), 1);
    assert_eq!(lines[0], "→ calls: foo");
}

#[test]
fn test_format_lines_methods_only_no_calls_line() {
    let insights = BodyInsights {
        calls: vec![],
        method_calls: vec!["push".into()],
        ..BodyInsights::default()
    };
    let lines = insights.format_lines();
    assert_eq!(lines.len(), 1);
    assert_eq!(lines[0], "→ methods: push");
}
