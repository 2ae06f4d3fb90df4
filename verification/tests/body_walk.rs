use taoki::index::body::{self as insights, BodyInsights, MatchInsight};
use taoki::index::syntax::{self as syntax, collect_visit, SyntaxNode};
use taoki::index::Language;

/// A syntax node seen the way the tree-sitter API shows it.
#[derive(Clone, Copy)]
struct View<'a>(&'a SyntaxNode);

struct Cursor;

struct Parsed(SyntaxNode);

impl Parsed {
    fn root_node(&self) -> View<'_> {
        View(&self.0)
    }
}

impl<'a> View<'a> {
    fn kind(&self) -> &'a str {
        self.0.kind.as_str()
    }
    fn child(&self, i: usize) -> Option<View<'a>> {
        self.0.children.get(i).map(View)
    }
    fn child_by_field_name(&self, f: &str) -> Option<View<'a>> {
        syntax::child_by_field(self.0, f).map(View)
    }
    fn walk(&self) -> Cursor {
        Cursor
    }
    fn children(&self, _c: &mut Cursor) -> std::vec::IntoIter<View<'a>> {
        self.0.children.iter().map(View).collect::<Vec<_>>().into_iter()
    }
}

fn parse_and_get_fn_body(source: &str, lang: Language) -> (Parsed, Vec<u8>) {
    let bytes = source.as_bytes().to_vec();
    let tree = syntax::parse_source(&bytes, lang).unwrap();
    (Parsed(tree), bytes)
}

fn node_text<'b>(n: View<'_>, source: &'b [u8]) -> String {
    String::from_utf8(source[n.0.start_byte..n.0.end_byte].to_vec()).unwrap_or_default()
}

fn visited<'a>(body: View<'a>, lang: Language) -> Vec<&'a SyntaxNode> {
    let mut ns = Vec::new();
    collect_visit(body.0, lang, &mut ns);
    ns
}

fn walk_body<'a>(body: View<'a>, lang: Language, visitor: &mut impl FnMut(View<'a>)) {
    for n in visited(body, lang) {
        visitor(View(n));
    }
}

fn extract_calls(body: View<'_>, source: &[u8], lang: Language) -> (Vec<String>, Vec<String>) {
    insights::extract_calls(&visited(body, lang), source, lang)
}

fn extract_match_arms(body: View<'_>, source: &[u8], lang: Language) -> Vec<MatchInsight> {
    insights::extract_match_arms(&visited(body, lang), source, lang)
}

fn extract_error_returns(body: View<'_>, source: &[u8], lang: Language) -> (Vec<String>, usize) {
    insights::extract_error_returns(&visited(body, lang), source, lang)
}

fn analyze_body(node: View<'_>, source: &[u8], lang: Language) -> BodyInsights {
    insights::analyze_body(node.0, source, lang)
}

#[test]
fn test_extract_calls_split_rust() {
    let src = r#"
fn example() {
let v = Vec::new();
v.push(1);
v.extend(vec![2, 3]);
let s = String::from("hi");
s.len();
}
"#;
    let (tree, bytes) = parse_and_get_fn_body(src, Language::Rust);
    let root = tree.root_node();
    let fn_node = root.child(0).unwrap();
    let insights = analyze_body(fn_node, &bytes, Language::Rust);
    // Vec::new and String::from are free/scoped calls
    assert!(insights.calls.contains(&"Vec::new".to_string()), "Vec::new should be a call");
    assert!(insights.calls.contains(&"String::from".to_string()), "String::from should be a call");
    // push, extend, len are method calls
    assert!(insights.method_calls.contains(&"push".to_string()), "push should be a method");
    assert!(insights.method_calls.contains(&"extend".to_string()), "extend should be a method");
    assert!(insights.method_calls.contains(&"len".to_string()), "len should be a method");
}

// --- walk_body tests ---

#[test]
fn test_walk_body_skips_nested_rust() {
    let src = r#"
fn outer() {
foo();
let f = || bar();
fn inner() { baz(); }
}
"#;
    let (tree, bytes) = parse_and_get_fn_body(src, Language::Rust);
    let root = tree.root_node();
    let fn_node = root.child(0).unwrap();
    assert_eq!(fn_node.kind(), "function_item");
    let body = fn_node.child_by_field_name("body").unwrap();

    let mut visited_kinds = Vec::new();
    walk_body(body, Language::Rust, &mut |node| {
        if node.kind() == "call_expression" {
            let callee = node_text(node.child(0).unwrap(), &bytes);
            visited_kinds.push(callee.to_string());
        }
    });
    // Should see foo() but NOT bar() (closure) or baz() (inner fn)
    assert_eq!(visited_kinds, vec!["foo"]);
}

#[test]
fn test_walk_body_skips_nested_python() {
    let src = r#"
def outer():
    foo()
    inner = lambda: bar()
    def nested():
        baz()
"#;
    let (tree, bytes) = parse_and_get_fn_body(src, Language::Python);
    let root = tree.root_node();
    let fn_node = root.child(0).unwrap();
    assert_eq!(fn_node.kind(), "function_definition");
    let body = fn_node.child_by_field_name("body").unwrap();

    let mut calls = Vec::new();
    walk_body(body, Language::Python, &mut |node| {
        if node.kind() == "call" {
            if let Some(func) = node.child_by_field_name("function") {
                calls.push(node_text(func, &bytes).to_string());
            }
        }
    });
    assert_eq!(calls, vec!["foo"]);
}

#[test]
fn test_walk_body_skips_nested_typescript() {
    let src = r#"
function outer() {
    foo();
    const f = () => bar();
    function inner() { baz(); }
}
"#;
    let (tree, bytes) = parse_and_get_fn_body(src, Language::TypeScript);
    let root = tree.root_node();
    let fn_node = root.child(0).unwrap();
    assert_eq!(fn_node.kind(), "function_declaration");
    let body = fn_node.child_by_field_name("body").unwrap();

    let mut calls = Vec::new();
    walk_body(body, Language::TypeScript, &mut |node| {
        if node.kind() == "call_expression" {
            if let Some(func) = node.child_by_field_name("function") {
                let text = node_text(func, &bytes);
                calls.push(text.to_string());
            }
        }
    });
    assert_eq!(calls, vec!["foo"]);
}

// --- extract_calls tests ---

#[test]
fn test_extract_calls_rust() {
    let src = r#"
fn example() {
let x = foo();
bar::baz();
x.method();
alpha(beta(gamma()));
}
"#;
    let (tree, bytes) = parse_and_get_fn_body(src, Language::Rust);
    let root = tree.root_node();
    let fn_node = root.child(0).unwrap();
    let body = fn_node.child_by_field_name("body").unwrap();

    let (calls, methods) = extract_calls(body, &bytes, Language::Rust);
    assert_eq!(calls, vec!["alpha", "bar::baz", "beta", "foo", "gamma"]);
    assert_eq!(methods, vec!["method"]);
}

#[test]
fn test_extract_calls_python() {
    let src = r#"
def example():
    foo()
    obj.method()
    alpha(beta())
"#;
    let (tree, bytes) = parse_and_get_fn_body(src, Language::Python);
    let root = tree.root_node();
    let fn_node = root.child(0).unwrap();
    let body = fn_node.child_by_field_name("body").unwrap();
    let (calls, methods) = extract_calls(body, &bytes, Language::Python);
    assert_eq!(calls, vec!["alpha", "beta", "foo"]);
    assert_eq!(methods, vec!["method"]);
}

#[test]
fn test_extract_calls_typescript() {
    let src = r#"
function example() {
    foo();
    obj.method();
    alpha(beta());
}
"#;
    let (tree, bytes) = parse_and_get_fn_body(src, Language::TypeScript);
    let root = tree.root_node();
    let fn_node = root.child(0).unwrap();
    let body = fn_node.child_by_field_name("body").unwrap();
    let (calls, methods) = extract_calls(body, &bytes, Language::TypeScript);
    assert_eq!(calls, vec!["alpha", "beta", "foo"]);
    assert_eq!(methods, vec!["method"]);
}

#[test]
fn test_extract_calls_go() {
    let src = r#"
package main
func example() {
    foo()
    pkg.Method()
    alpha(beta())
}
"#;
    let (tree, bytes) = parse_and_get_fn_body(src, Language::Go);
    let root = tree.root_node();
    let mut cursor = root.walk();
    let fn_node = root.children(&mut cursor)
        .find(|c| c.kind() == "function_declaration")
        .unwrap();
    let body = fn_node.child_by_field_name("body").unwrap();
    let (calls, methods) = extract_calls(body, &bytes, Language::Go);
    assert_eq!(calls, vec!["alpha", "beta", "foo"]);
    assert_eq!(methods, vec!["Method"]);
}

#[test]
fn test_extract_calls_java() {
    let src = r#"
class Example {
    void example() {
        foo();
        obj.method();
        alpha(beta());
    }
}
"#;
    let (tree, bytes) = parse_and_get_fn_body(src, Language::Java);
    let root = tree.root_node();
    let class_node = root.child(0).unwrap();
    let body = class_node.child_by_field_name("body").unwrap();
    let mut cursor = body.walk();
    let method = body.children(&mut cursor)
        .find(|c| c.kind() == "method_declaration")
        .unwrap();
    let method_body = method.child_by_field_name("body").unwrap();
    let (calls, methods) = extract_calls(method_body, &bytes, Language::Java);
    assert_eq!(calls, vec!["alpha", "beta", "foo"]);
    assert_eq!(methods, vec!["method"]);
}

// --- extract_match_arms tests ---

#[test]
fn test_extract_match_rust() {
    let src = r#"
fn example(cmd: &str) {
match cmd {
    "start" => start(),
    "stop" => stop(),
    _ => default(),
}
}
"#;
    let (tree, bytes) = parse_and_get_fn_body(src, Language::Rust);
    let root = tree.root_node();
    let fn_node = root.child(0).unwrap();
    let body = fn_node.child_by_field_name("body").unwrap();
    let matches = extract_match_arms(body, &bytes, Language::Rust);
    assert_eq!(matches.len(), 1);
    assert_eq!(matches[0].target, "cmd");
    assert_eq!(matches[0].arms, vec!["\"start\"", "\"stop\"", "_"]);
}

#[test]
fn test_extract_match_typescript() {
    let src = r#"
function example(cmd: string) {
    switch (cmd) {
        case "start":
            start();
            break;
        case "stop":
            stop();
            break;
        default:
            other();
    }
}
"#;
    let (tree, bytes) = parse_and_get_fn_body(src, Language::TypeScript);
    let root = tree.root_node();
    let fn_node = root.child(0).unwrap();
    let body = fn_node.child_by_field_name("body").unwrap();
    let matches = extract_match_arms(body, &bytes, Language::TypeScript);
    assert_eq!(matches.len(), 1);
    assert_eq!(matches[0].target, "cmd");
    assert_eq!(matches[0].arms, vec!["\"start\"", "\"stop\"", "default"]);
}

#[test]
fn test_extract_match_go() {
    let src = r#"
package main
func example(cmd string) {
    switch cmd {
    case "start":
        start()
    case "stop":
        stop()
    default:
        other()
    }
}
"#;
    let (tree, bytes) = parse_and_get_fn_body(src, Language::Go);
    let root = tree.root_node();
    let mut cursor = root.walk();
    let fn_node = root.children(&mut cursor)
        .find(|c| c.kind() == "function_declaration")
        .unwrap();
    let body = fn_node.child_by_field_name("body").unwrap();
    let matches = extract_match_arms(body, &bytes, Language::Go);
    assert_eq!(matches.len(), 1);
    assert_eq!(matches[0].target, "cmd");
    assert_eq!(matches[0].arms, vec!["\"start\"", "\"stop\"", "default"]);
}

// --- extract_error_returns tests ---

#[test]
fn test_extract_errors_rust() {
    let src = r#"
fn example() -> Result<(), MyError> {
let x = something()?;
let y = other()?;
if bad {
    return Err(MyError::NotFound);
}
panic!("oh no");
Ok(())
}
"#;
    let (tree, bytes) = parse_and_get_fn_body(src, Language::Rust);
    let root = tree.root_node();
    let fn_node = root.child(0).unwrap();
    let body = fn_node.child_by_field_name("body").unwrap();
    let (errors, try_count) = extract_error_returns(body, &bytes, Language::Rust);
    assert_eq!(try_count, 2);
    // Only stdlib: Err() calls and panic!/todo!/unimplemented! macros
    assert_eq!(errors, vec!["MyError::NotFound", "panic!"]);
}

#[test]
fn test_extract_errors_python() {
    let src = r#"
def example():
    raise ValueError("bad")
    raise NotFoundError()
    raise ValueError("duplicate")
"#;
    let (tree, bytes) = parse_and_get_fn_body(src, Language::Python);
    let root = tree.root_node();
    let fn_node = root.child(0).unwrap();
    let body = fn_node.child_by_field_name("body").unwrap();
    let (errors, try_count) = extract_error_returns(body, &bytes, Language::Python);
    assert_eq!(try_count, 0);
    assert_eq!(errors, vec!["ValueError", "NotFoundError"]);
}

#[test]
fn test_extract_errors_typescript() {
    let src = r#"
function example() {
    throw new Error("bad");
    throw new NotFoundError("missing");
}
"#;
    let (tree, bytes) = parse_and_get_fn_body(src, Language::TypeScript);
    let root = tree.root_node();
    let fn_node = root.child(0).unwrap();
    let body = fn_node.child_by_field_name("body").unwrap();
    let (errors, _) = extract_error_returns(body, &bytes, Language::TypeScript);
    assert_eq!(errors, vec!["Error", "NotFoundError"]);
}

#[test]
fn test_extract_errors_go() {
    let src = r#"
package main
import "errors"
import "fmt"
func example() error {
    if bad {
        return errors.New("bad")
    }
    x := fmt.Errorf("failed: %v", err)
    return x
}
"#;
    let (tree, bytes) = parse_and_get_fn_body(src, Language::Go);
    let root = tree.root_node();
    let mut cursor = root.walk();
    let fn_node = root.children(&mut cursor)
        .find(|c| c.kind() == "function_declaration")
        .unwrap();
    let body = fn_node.child_by_field_name("body").unwrap();
    let (errors, _) = extract_error_returns(body, &bytes, Language::Go);
    assert_eq!(errors, vec!["errors.New", "fmt.Errorf"]);
}

#[test]
fn test_extract_errors_java() {
    let src = r#"
class Example {
    void example() {
        throw new IllegalArgumentException("bad");
        throw new RuntimeException("oops");
    }
}
"#;
    let (tree, bytes) = parse_and_get_fn_body(src, Language::Java);
    let root = tree.root_node();
    let class_node = root.child(0).unwrap();
    let body = class_node.child_by_field_name("body").unwrap();
    let mut cursor = body.walk();
    let method = body.children(&mut cursor)
        .find(|c| c.kind() == "method_declaration")
        .unwrap();
    let method_body = method.child_by_field_name("body").unwrap();
    let (errors, _) = extract_error_returns(method_body, &bytes, Language::Java);
    assert_eq!(errors, vec!["IllegalArgumentException", "RuntimeException"]);
}

// --- Golden snapshot tests ---

#[test]
fn test_golden_rust() {
    let src = r#"
fn handler(cmd: &str) -> Result<(), AppError> {
let config = load_config()?;
let db = connect()?;
match cmd {
    "create" => create(&db),
    "delete" => delete(&db),
    "list" => list(&db),
    _ => return Err(AppError::UnknownCommand),
}
Ok(())
}
"#;
    let (tree, bytes) = parse_and_get_fn_body(src, Language::Rust);
    let root = tree.root_node();
    let fn_node = root.child(0).unwrap();
    let insights = analyze_body(fn_node, &bytes, Language::Rust);
    let lines = insights.format_lines();
    assert_eq!(lines, vec![
        "→ calls: Err, Ok, connect, create, delete, list, load_config",
        "→ match: cmd → \"create\", \"delete\", \"list\", _",
        "→ errors: AppError::UnknownCommand, 2× ?",
    ]);
}

#[test]
fn test_golden_typescript() {
    let src = r#"
function processEvent(event: Event): void {
    validate(event);
    const result = transform(event.data);
    switch (event.type) {
        case "click":
            handleClick(result);
            break;
        case "hover":
            handleHover(result);
            break;
        default:
            throw new UnhandledEventError("unknown");
    }
    log(result);
}
"#;
    let (tree, bytes) = parse_and_get_fn_body(src, Language::TypeScript);
    let root = tree.root_node();
    let fn_node = root.child(0).unwrap();
    let insights = analyze_body(fn_node, &bytes, Language::TypeScript);
    let lines = insights.format_lines();
    assert_eq!(lines, vec![
        "→ calls: handleClick, handleHover, log, transform, validate",
        "→ match: event.type → \"click\", \"hover\", default",
        "→ errors: UnhandledEventError",
    ]);
}

#[test]
fn test_golden_python() {
    let src = r#"
def process(action, data):
    validate(data)
    result = transform(data)
    if not result:
        raise ValueError("empty")
    save(result)
"#;
    let (tree, bytes) = parse_and_get_fn_body(src, Language::Python);
    let root = tree.root_node();
    let fn_node = root.child(0).unwrap();
    let insights = analyze_body(fn_node, &bytes, Language::Python);
    let lines = insights.format_lines();
    assert_eq!(lines, vec![
        "→ calls: ValueError, save, transform, validate",
        "→ errors: ValueError",
    ]);
}

#[test]
fn test_golden_go() {
    let src = r#"
package main
import "errors"
func handle(cmd string) error {
    validate(cmd)
    switch cmd {
    case "start":
        start()
    case "stop":
        stop()
    default:
        return errors.New("unknown command")
    }
    return nil
}
"#;
    let (tree, bytes) = parse_and_get_fn_body(src, Language::Go);
    let root = tree.root_node();
    let mut cursor = root.walk();
    let fn_node = root.children(&mut cursor)
        .find(|c| c.kind() == "function_declaration")
        .unwrap();
    let insights = analyze_body(fn_node, &bytes, Language::Go);
    let lines = insights.format_lines();
    assert_eq!(lines, vec![
        "→ calls: start, stop, validate",
        "→ methods: New",
        "→ match: cmd → \"start\", \"stop\", default",
        "→ errors: errors.New",
    ]);
}

#[test]
fn test_golden_java() {
    let src = r#"
class Handler {
    void handle(String cmd) {
        validate(cmd);
        switch (cmd) {
            case "start":
                start();
                break;
            case "stop":
                stop();
                break;
            default:
                throw new IllegalArgumentException("unknown");
        }
        log(cmd);
    }
}
"#;
    let (tree, bytes) = parse_and_get_fn_body(src, Language::Java);
    let root = tree.root_node();
    let class_node = root.child(0).unwrap();
    let body = class_node.child_by_field_name("body").unwrap();
    let mut cursor = body.walk();
    let method = body.children(&mut cursor)
        .find(|c| c.kind() == "method_declaration")
        .unwrap();
    let insights = analyze_body(method, &bytes, Language::Java);
    let lines = insights.format_lines();
    assert_eq!(lines, vec![
        "→ calls: log, start, stop, validate",
        "→ match: cmd → \"start\", \"stop\", default",
        "→ errors: IllegalArgumentException",
    ]);
}

// --- Nested class/object skipping tests ---

#[test]
fn test_walk_body_skips_nested_class_python() {
    let src = r#"
def outer():
    foo()
    class Inner:
        def method(self):
            bar()
    baz()
"#;
    let (tree, bytes) = parse_and_get_fn_body(src, Language::Python);
    let root = tree.root_node();
    let fn_node = root.child(0).unwrap();
    let insights = analyze_body(fn_node, &bytes, Language::Python);
    let calls = &insights.calls;
    assert!(calls.contains(&"foo".to_string()));
    assert!(calls.contains(&"baz".to_string()));
    assert!(!calls.contains(&"bar".to_string()), "should not include calls from nested class");
}

#[test]
fn test_walk_body_skips_nested_class_typescript() {
    let src = r#"
function outer() {
    foo();
    class Inner {
        method() { bar(); }
    }
    baz();
}
"#;
    let (tree, bytes) = parse_and_get_fn_body(src, Language::TypeScript);
    let root = tree.root_node();
    let fn_node = root.child(0).unwrap();
    let insights = analyze_body(fn_node, &bytes, Language::TypeScript);
    let calls = &insights.calls;
    assert!(calls.contains(&"foo".to_string()));
    assert!(calls.contains(&"baz".to_string()));
    assert!(!calls.contains(&"bar".to_string()), "should not include calls from nested class");
}

#[test]
fn test_walk_body_skips_nested_class_java() {
    let src = r#"
class Outer {
    void outer() {
        foo();
        class Inner {
            void method() { bar(); }
        }
        baz();
    }
}
"#;
    let (tree, bytes) = parse_and_get_fn_body(src, Language::Java);
    let root = tree.root_node();
    let class_node = root.child(0).unwrap();
    let body = class_node.child_by_field_name("body").unwrap();
    let mut cursor = body.walk();
    let method = body.children(&mut cursor)
        .find(|c| c.kind() == "method_declaration")
        .unwrap();
    let insights = analyze_body(method, &bytes, Language::Java);
    let calls = &insights.calls;
    assert!(calls.contains(&"foo".to_string()));
    assert!(calls.contains(&"baz".to_string()));
    assert!(!calls.contains(&"bar".to_string()), "should not include calls from nested class");
}

// --- Java arrow-style switch test ---

#[test]
fn test_extract_match_java_arrow_style() {
    let src = r#"
class Example {
    String example(int x) {
        return switch (x) {
            case 1 -> "one";
            case 2 -> "two";
            default -> "other";
        };
    }
}
"#;
    let (tree, bytes) = parse_and_get_fn_body(src, Language::Java);
    let root = tree.root_node();
    let class_node = root.child(0).unwrap();
    let body = class_node.child_by_field_name("body").unwrap();
    let mut cursor = body.walk();
    let method = body.children(&mut cursor)
        .find(|c| c.kind() == "method_declaration")
        .unwrap();
    let insights = analyze_body(method, &bytes, Language::Java);
    assert!(!insights.match_arms.is_empty(), "should extract arrow-style switch arms");
    let m = &insights.match_arms[0];
    assert_eq!(m.target, "x");
    assert_eq!(m.arms, vec!["1", "2", "default"]);
}

// --- Rust namespaced macro test (stdlib only) ---

#[test]
fn test_extract_errors_rust_stdlib_macros_only() {
    let src = r#"
fn example() -> Result<()> {
anyhow::bail!("something went wrong");
std::panic!("fatal");
mycrate::panic!("not stdlib");
core::unimplemented!("todo");
tracing::error!("not an error return");
Ok(())
}
"#;
    let (tree, bytes) = parse_and_get_fn_body(src, Language::Rust);
    let root = tree.root_node();
    let fn_node = root.child(0).unwrap();
    let body = fn_node.child_by_field_name("body").unwrap();
    let (errors, _) = extract_error_returns(body, &bytes, Language::Rust);
    // Only stdlib (std::/core::) and unqualified macros detected
    // anyhow::bail! and mycrate::panic! are not matched
    assert_eq!(errors, vec!["std::panic!", "core::unimplemented!"]);
}

// --- No name-based filtering: purely structural ---

#[test]
fn test_extract_calls_rust_no_name_filtering() {
    let src = r#"
fn example() -> Result<(), Error> {
let x = foo()?;
Ok(bar())
}
"#;
    let (tree, bytes) = parse_and_get_fn_body(src, Language::Rust);
    let root = tree.root_node();
    let fn_node = root.child(0).unwrap();
    let body = fn_node.child_by_field_name("body").unwrap();
    let (calls, _methods) = extract_calls(body, &bytes, Language::Rust);
    // No name-based filtering — Ok is a free call and appears in primary tier
    assert!(calls.contains(&"bar".to_string()));
    assert!(calls.contains(&"foo".to_string()));
    assert!(calls.contains(&"Ok".to_string()), "Ok should not be filtered — no name heuristics");
}

// --- Call priority ordering tests ---

#[test]
fn test_calls_priority_rust_free_before_methods() {
    let src = r#"
fn example() {
let x = items.clone();
let y = items.iter().map(|i| i).collect();
compute(x);
Config::new();
y.is_empty();
process(y);
}
"#;
    let (tree, bytes) = parse_and_get_fn_body(src, Language::Rust);
    let root = tree.root_node();
    let fn_node = root.child(0).unwrap();
    let body = fn_node.child_by_field_name("body").unwrap();
    let (calls, methods) = extract_calls(body, &bytes, Language::Rust);
    assert_eq!(calls, vec!["Config::new", "compute", "process"]);
    assert_eq!(methods, vec!["clone", "collect", "is_empty", "iter", "map"]);
}

#[test]
fn test_calls_priority_python_free_before_methods() {
    let src = r#"
def example(items):
    validate(items)
    result = items.filter(lambda x: x)
    result.sort()
    save(result)
    result.append(1)
"#;
    let (tree, bytes) = parse_and_get_fn_body(src, Language::Python);
    let root = tree.root_node();
    let fn_node = root.child(0).unwrap();
    let body = fn_node.child_by_field_name("body").unwrap();
    let (calls, methods) = extract_calls(body, &bytes, Language::Python);
    assert_eq!(calls, vec!["save", "validate"]);
    assert_eq!(methods, vec!["append", "filter", "sort"]);
}

#[test]
fn test_calls_priority_ts_free_before_methods() {
    let src = r#"
function example(items: any[]) {
    validate(items);
    const result = items.filter(x => x);
    result.push(1);
    process(result);
}
"#;
    let (tree, bytes) = parse_and_get_fn_body(src, Language::TypeScript);
    let root = tree.root_node();
    let fn_node = root.child(0).unwrap();
    let body = fn_node.child_by_field_name("body").unwrap();
    let (calls, methods) = extract_calls(body, &bytes, Language::TypeScript);
    assert_eq!(calls, vec!["process", "validate"]);
    assert_eq!(methods, vec!["filter", "push"]);
}

#[test]
fn test_calls_priority_java_free_before_methods() {
    let src = r#"
class Example {
    void example() {
        validate(data);
        obj.save();
        process(data);
        obj.notify();
    }
}
"#;
    let (tree, bytes) = parse_and_get_fn_body(src, Language::Java);
    let root = tree.root_node();
    let class_node = root.child(0).unwrap();
    let body = class_node.child_by_field_name("body").unwrap();
    let mut cursor = body.walk();
    let method = body.children(&mut cursor)
        .find(|c| c.kind() == "method_declaration")
        .unwrap();
    let method_body = method.child_by_field_name("body").unwrap();
    let (calls, methods) = extract_calls(method_body, &bytes, Language::Java);
    assert_eq!(calls, vec!["process", "validate"]);
    assert_eq!(methods, vec!["notify", "save"]);
}

#[test]
fn test_calls_priority_methods_fill_remaining_budget() {
    // When free calls fill the budget, method calls are separate
    let mut fn_body = String::from("fn example() {\n");
    for i in 0..14 {
        fn_body.push_str(&format!("    free_fn_{i}();\n"));
    }
    fn_body.push_str("    x.method_a();\n");
    fn_body.push_str("    x.method_b();\n");
    fn_body.push_str("}\n");
    let (tree, bytes) = parse_and_get_fn_body(&fn_body, Language::Rust);
    let root = tree.root_node();
    let fn_node = root.child(0).unwrap();
    let body = fn_node.child_by_field_name("body").unwrap();
    let (calls, methods) = extract_calls(body, &bytes, Language::Rust);
    assert_eq!(calls.len(), 14, "all primary calls should be included");
    assert_eq!(methods.len(), 2, "method calls are now separate");
    assert!(methods.contains(&"method_a".to_string()));
    assert!(methods.contains(&"method_b".to_string()));
}

#[test]
fn test_calls_priority_only_methods() {
    // When there are no free calls, all method calls appear
    let src = r#"
fn example(items: Vec<i32>) {
items.iter().map(|x| x + 1).collect();
items.len();
items.is_empty();
}
"#;
    let (tree, bytes) = parse_and_get_fn_body(src, Language::Rust);
    let root = tree.root_node();
    let fn_node = root.child(0).unwrap();
    let body = fn_node.child_by_field_name("body").unwrap();
    let (calls, methods) = extract_calls(body, &bytes, Language::Rust);
    assert!(calls.is_empty(), "no free calls");
    assert_eq!(methods, vec!["collect", "is_empty", "iter", "len", "map"]);
}

#[test]
fn test_extract_calls_java_local_variable_initializer() {
    let src = r#"
class Example {
    void example() {
        Foo x = make();
        var y = validate(data);
        process(x, y);
    }
}
"#;
    let (tree, bytes) = parse_and_get_fn_body(src, Language::Java);
    let root = tree.root_node();
    let class_node = root.child(0).unwrap();
    let body = class_node.child_by_field_name("body").unwrap();
    let mut cursor = body.walk();
    let method = body.children(&mut cursor)
        .find(|c| c.kind() == "method_declaration")
        .unwrap();
    let insights = analyze_body(method, &bytes, Language::Java);
    let calls = &insights.calls;
    assert!(calls.contains(&"make".to_string()), "should capture call in variable initializer");
    assert!(calls.contains(&"validate".to_string()), "should capture call in var initializer");
    assert!(calls.contains(&"process".to_string()));
}

// --- Receiver context tests ---

#[test]
fn test_receiver_context_rust_chained() {
    // self.client.get() → client.get
    let src = r#"
struct S { client: Client }
impl S {
fn example(&self) {
    self.client.get("url");
    self.items.push(1);
    plain_call();
    foo.bar();
}
}
"#;
    let (tree, bytes) = parse_and_get_fn_body(src, Language::Rust);
    let root = tree.root_node();
    // Find the impl block → declaration_list → function_item
    let mut cursor = root.walk();
    let impl_node = root.children(&mut cursor)
        .find(|c| c.kind() == "impl_item")
        .unwrap();
    let decl_list = impl_node.children(&mut impl_node.walk())
        .find(|c| c.kind() == "declaration_list")
        .unwrap();
    let fn_node = decl_list.children(&mut decl_list.walk())
        .find(|c| c.kind() == "function_item")
        .unwrap();
    let insights = analyze_body(fn_node, &bytes, Language::Rust);
    assert!(insights.calls.contains(&"plain_call".to_string()), "free call missing");
    assert!(insights.method_calls.contains(&"client.get".to_string()),
        "expected client.get, got: {:?}", insights.method_calls);
    assert!(insights.method_calls.contains(&"items.push".to_string()),
        "expected items.push, got: {:?}", insights.method_calls);
    // foo.bar() — foo is a simple identifier, no prefix
    assert!(insights.method_calls.contains(&"bar".to_string()),
        "expected bar (no prefix for simple receiver), got: {:?}", insights.method_calls);
}

#[test]
fn test_receiver_context_python() {
    let src = r#"
def example(self):
    self.client.get("url")
    items.append(1)
    free_call()
"#;
    let (tree, bytes) = parse_and_get_fn_body(src, Language::Python);
    let root = tree.root_node();
    let fn_node = root.child(0).unwrap();
    let insights = analyze_body(fn_node, &bytes, Language::Python);
    assert!(insights.calls.contains(&"free_call".to_string()));
    assert!(insights.method_calls.contains(&"client.get".to_string()),
        "expected client.get, got: {:?}", insights.method_calls);
    // items.append — items is a simple identifier
    assert!(insights.method_calls.contains(&"append".to_string()),
        "expected append, got: {:?}", insights.method_calls);
}

#[test]
fn test_receiver_context_typescript() {
    let src = r#"
function example() {
    this.client.get("url");
    items.push(1);
    freeFn();
}
"#;
    let (tree, bytes) = parse_and_get_fn_body(src, Language::TypeScript);
    let root = tree.root_node();
    let fn_node = root.child(0).unwrap();
    let insights = analyze_body(fn_node, &bytes, Language::TypeScript);
    assert!(insights.calls.contains(&"freeFn".to_string()));
    assert!(insights.method_calls.contains(&"client.get".to_string()),
        "expected client.get, got: {:?}", insights.method_calls);
    assert!(insights.method_calls.contains(&"push".to_string()),
        "expected push (simple receiver), got: {:?}", insights.method_calls);
}

#[test]
fn test_receiver_context_go() {
    let src = r#"
package main
func example() {
    resp.Body.Close()
    fmt.Println("hi")
    s.Do()
}
"#;
    let (tree, bytes) = parse_and_get_fn_body(src, Language::Go);
    let root = tree.root_node();
    let mut cursor = root.walk();
    let fn_node = root.children(&mut cursor)
        .find(|c| c.kind() == "function_declaration")
        .unwrap();
    let insights = analyze_body(fn_node, &bytes, Language::Go);
    assert!(insights.method_calls.contains(&"Body.Close".to_string()),
        "expected Body.Close, got: {:?}", insights.method_calls);
    // fmt.Println — fmt is identifier, no prefix
    assert!(insights.method_calls.contains(&"Println".to_string()),
        "expected Println, got: {:?}", insights.method_calls);
    // s.Do — s is identifier, no prefix
    assert!(insights.method_calls.contains(&"Do".to_string()),
        "expected Do, got: {:?}", insights.method_calls);
}

#[test]
fn test_receiver_context_java() {
    let src = r#"
class Example {
    void run() {
        this.service.process();
        items.add(1);
        staticCall();
    }
}
"#;
    let (tree, bytes) = parse_and_get_fn_body(src, Language::Java);
    let root = tree.root_node();
    let class_node = root.child(0).unwrap();
    let body = class_node.child_by_field_name("body").unwrap();
    let mut cursor = body.walk();
    let fn_node = body.children(&mut cursor)
        .find(|c| c.kind() == "method_declaration")
        .unwrap();
    let insights = analyze_body(fn_node, &bytes, Language::Java);
    assert!(insights.method_calls.contains(&"service.process".to_string()),
        "expected service.process, got: {:?}", insights.method_calls);
    // items.add — items is simple identifier
    assert!(insights.method_calls.contains(&"add".to_string()),
        "expected add, got: {:?}", insights.method_calls);
}
