use taoki::index::{extract_all, index_source, Language};

fn idx(source: &str, lang: Language) -> String {
    index_source(source.as_bytes(), lang).unwrap()
}

fn has(output: &str, needles: &[&str]) {
    for n in needles {
        assert!(output.contains(n), "missing {n:?} in:\n{output}");
    }
}

fn lacks(output: &str, needles: &[&str]) {
    for n in needles {
        assert!(!output.contains(n), "unexpected {n:?} in:\n{output}");
    }
}

#[test]
fn go_all_sections() {
    let src = r#"
package main

import (
	"fmt"
	"os"
)

const MaxRetries = 3

type Point struct {
	X int
	Y int
}

type Reader interface {
	Read(p []byte) (int, error)
}

func (p *Point) Distance() float64 {
	return 0
}

func main() {
	fmt.Println("hello")
}
"#;
    let out = idx(src, Language::Go);
    has(&out, &[
        "imports:",
        "fmt",
        "os",
        "consts:",
        "MaxRetries",
        "types:",
        "struct Point",
        "X int",
        "traits:",
        "Reader",
        "Read(p []byte) (int, error)",
        "impls:",
        "(p *Point) Distance() float64",
        "fns:",
        "main()",
    ]);
}

#[test]
fn python_all_sections() {
    let src = "\
\"\"\"Module docstring.\"\"\"

import os
from typing import Optional

MAX_RETRIES = 3

@dataclass
class MyClass:
    x: int = 0

class AuthService:
    def __init__(self, secret: str):
        self.secret = secret
    @staticmethod
    def validate(token: str) -> bool:
        return True

def process(data: list) -> dict:
    return {}
";
    let out = idx(src, Language::Python);
    has(&out, &[
        "module doc:",
        "imports:",
        "os",
        "typing::Optional",
        "consts:",
        "MAX_RETRIES",
        "classes:",
        "MyClass",
        "AuthService",
        "__init__(self, secret: str)",
        "validate(token: str) -> bool",
        "fns:",
        "process(data: list) -> dict",
    ]);
}

#[test]
fn go_doc_comment_extracted() {
    let src = "\
package main

// FetchUser retrieves a user by ID.
func FetchUser(id string) (*User, error) { return nil, nil }

// Config holds application settings.
type Config struct {
    Host string
    Port int
}

// not adjacent — blank line separates

func Bare() {}
";
    let out = idx(src, Language::Go);
    has(&out, &[
        "/// FetchUser retrieves a user by ID.",
        "/// Config holds application settings.",
    ]);
    lacks(&out, &["/// not adjacent", "/// Bare"]);
}

#[test]
fn python_raw_and_single_quote_docstrings() {
    let src = r#"
def raw_doc():
    r"""Raw docstring content."""
    pass

def single_quote_doc():
    '''Single-quoted docstring.'''
    pass
"#;
    let out = idx(src, Language::Python);
    has(&out, &[
        "/// Raw docstring content.",
        "/// Single-quoted docstring.",
    ]);
}

#[test]
fn python_doc_comment_extracted() {
    let src = r#"
def fetch_user(user_id: str) -> User:
    """Fetch a user from the database."""
    pass

class Config:
    """Application configuration."""
    host: str
    port: int

def bare():
    pass

def multiline_doc():
    """
    Summary on second line.
    More details here.
    """
    pass
"#;
    let out = idx(src, Language::Python);
    has(&out, &[
        "/// Fetch a user from the database.",
        "/// Application configuration.",
        "/// Summary on second line.",
    ]);
    lacks(&out, &["/// bare", "More details"]);
}

#[test]
fn python_empty_docstring_ignored() {
    let src = "def empty():\n    \"\"\"   \"\"\"\n    pass\n";
    let out = idx(src, Language::Python);
    has(&out, &["empty()"]);
    lacks(&out, &["///"]);
}

#[test]
fn test_range_includes_last_test_body() {
    // Two test functions — the range should span from first start to last END
    let src = r#"
def add(a, b):
    return a + b

def test_add():
    assert add(1, 2) == 3

def test_subtract():
    result = add(5, 3)
    assert result == 2
"#;
    let out = idx(src, Language::Python);
    // test_add starts at line 5, test_subtract ends at line 10
    // The tests range must include line 10, not stop at line 8
    has(&out, &["tests: [5-10]"]);
}

#[test]
fn go_test_functions_collapsed() {
    let src = r#"
package main

func Helper() {}

func TestLogin(t *testing.T) {
    t.Log("test")
}

func BenchmarkSort(b *testing.B) {
    b.Log("bench")
}

func ExampleFoo() {
    fmt.Println("example")
}

func Process() {}
"#;
    let out = index_source(src.as_bytes(), Language::Go).unwrap();
    assert!(out.contains("tests:"), "missing tests section in:\n{out}");
    assert!(!out.contains("TestLogin"), "TestLogin should be collapsed in:\n{out}");
    assert!(!out.contains("BenchmarkSort"), "BenchmarkSort should be collapsed in:\n{out}");
    assert!(!out.contains("ExampleFoo"), "ExampleFoo should be collapsed in:\n{out}");
    assert!(out.contains("Helper"), "Helper should be visible in:\n{out}");
    assert!(out.contains("Process"), "Process should be visible in:\n{out}");
}

#[test]
fn python_test_functions_collapsed() {
    let src = "\
def helper():
    pass

def test_login():
    assert True

class TestAuth:
    def test_token(self):
        pass

def process():
    pass
";
    let out = index_source(src.as_bytes(), Language::Python).unwrap();
    assert!(out.contains("tests:"), "missing tests section in:\n{out}");
    assert!(!out.contains("test_login"), "test_login should be collapsed in:\n{out}");
    assert!(!out.contains("TestAuth"), "TestAuth should be collapsed in:\n{out}");
    assert!(out.contains("helper"), "helper should be visible in:\n{out}");
    assert!(out.contains("process"), "process should be visible in:\n{out}");
}

#[test]
fn python_top_level_expressions() {
    let src = "\
from flask import Flask

app = Flask(__name__)
__version__ = '1.0'
db = SQLAlchemy()

app.register_blueprint(auth_bp)
db.init_app(app)

MAX_SIZE = 100

print('hello')
run()
logging.info('started')

if __name__ == '__main__':
    app.run(debug=True)
";
    let out = index_source(src.as_bytes(), Language::Python).unwrap();

    // Named assignments (non-ALL_CAPS) should appear in exprs:
    assert!(out.contains("exprs:"), "missing exprs section in:\n{out}");
    assert!(out.contains("app = Flask(__name__)"), "missing app assignment in:\n{out}");
    assert!(out.contains("__version__"), "missing __version__ in:\n{out}");
    assert!(out.contains("db = SQLAlchemy()"), "missing db assignment in:\n{out}");

    // Dotted method calls should appear in exprs:
    assert!(out.contains("app.register_blueprint"), "missing register_blueprint in:\n{out}");
    assert!(out.contains("db.init_app"), "missing db.init_app in:\n{out}");

    // ALL_CAPS should still be in consts:
    assert!(out.contains("consts:"), "missing consts section in:\n{out}");
    assert!(out.contains("MAX_SIZE"), "missing MAX_SIZE in:\n{out}");

    // Noise should NOT appear
    assert!(!out.contains("print('hello')"), "print() should be filtered in:\n{out}");
    assert!(!out.contains("  run()"), "run() should be filtered in:\n{out}");
    assert!(!out.contains("logging.info"), "logging.info should be filtered in:\n{out}");

    // if __name__ == '__main__' should be collapsed with line range
    assert!(out.contains("if __name__"), "missing if __name__ block in:\n{out}");
}

#[test]
fn ts_all_sections() {
    let src = "\
import { Request, Response } from 'express';

export interface Config {
    port: number;
    host: string;
}

export type ID = string | number;

export enum Direction { Up, Down }

export const PORT: number = 3000;

export class Service {
    process(input: string): string { return input; }
}

/** The main handler. */
export function handler(req: Request): Response { return new Response(); }
";
    let out = idx(src, Language::TypeScript);
    has(&out, &[
        "imports:",
        "{ Request, Response } from 'express'",
        "types:",
        "export interface Config",
        "port: number",
        "export enum Direction",
        "consts:",
        "PORT",
        "classes:",
        "export Service",
        "fns:",
        "export handler(req: Request)",
        "/// The main handler.",
    ]);
}

#[test]
fn js_function() {
    let out = idx(
        "function hello(name) {\n    console.log(name);\n}\n",
        Language::JavaScript,
    );
    has(&out, &["fns:", "hello(name)"]);
}

#[test]
fn java_all_sections() {
    let src = r#"
package com.example;

import java.util.List;
import java.io.IOException;

public class Service {
    private String name;
    public Service(String name) { this.name = name; }
    public void process(List<String> items) throws IOException {}
}

public interface Handler {
    void handle(String request);
}

public enum Direction {
    UP, DOWN, LEFT, RIGHT
}
"#;
    let out = idx(src, Language::Java);
    has(&out, &[
        "imports:",
        "java::{util::List, io::IOException}",
        "mod:",
        "com.example",
        "classes:",
        "public class Service",
        "private String name",
        "public Service(String name)",
        "traits:",
        "public interface Handler",
        "types:",
        "public enum Direction",
        "UP",
    ]);
}

#[test]
fn ts_doc_comment_extracted() {
    let src = "\
/** Handles incoming requests. */
export function handleRequest(req: Request): Response { return req; }

/**
 * Application configuration.
 * Loaded from environment variables.
 */
export interface Config {
    port: number;
    host: string;
}

function undocumented() {}
";
    let out = idx(src, Language::TypeScript);
    has(&out, &[
        "/// Handles incoming requests.",
        "/// Application configuration.",
    ]);
    lacks(&out, &["/// undocumented", "Loaded from"]);
}

#[test]
fn ts_line_comment_blocks_doc_attribution() {
    let src = "\
/** Doc for something else. */
function foo() {}
// unrelated comment
export function bar() {}
";
    let out = idx(src, Language::TypeScript);
    has(&out, &["/// Doc for something else."]);
    // bar must NOT get foo's doc — the // comment is a barrier
    lacks(&out, &["bar\n        /// Doc"]);
}

#[test]
fn java_doc_comment_extracted() {
    let src = "\
package com.example;

/** Handles user operations. */
public class UserService {
    public void doStuff() {}
}

/**
 * Represents a user in the system.
 * Contains identity and role information.
 */
public record User(String name, String role) {}

public class Bare {}
";
    let out = idx(src, Language::Java);
    has(&out, &[
        "/// Handles user operations.",
        "/// Represents a user in the system.",
    ]);
    lacks(&out, &["/// Bare", "Contains identity"]);
}

#[test]
fn java_line_comment_blocks_doc_attribution() {
    let src = "\
package com.example;

/** Doc for SomeOtherClass. */
class SomeOtherClass {}
// TODO: remove this
public class MyClass {}
";
    let out = idx(src, Language::Java);
    has(&out, &["/// Doc for SomeOtherClass."]);
    // MyClass must NOT get SomeOtherClass's doc
    lacks(&out, &["MyClass\n        /// Doc"]);
}

#[test]
fn java_enum_with_methods() {
    let src = r#"
public enum Role {
    ADMIN,
    EDITOR,
    VIEWER;

    public boolean canEdit() {
        return this == ADMIN || this == EDITOR;
    }

    public String label() {
        return name().toLowerCase();
    }
}
"#;
    let out = idx(src, Language::Java);
    // Constants should appear
    assert!(out.contains("ADMIN"), "missing ADMIN constant");
    assert!(out.contains("EDITOR"), "missing EDITOR constant");
    assert!(out.contains("VIEWER"), "missing VIEWER constant");
    // Methods should appear with signatures
    assert!(out.contains("public boolean canEdit()"), "missing canEdit method");
    assert!(out.contains("public String label()"), "missing label method");
}

#[test]
fn java_enum_no_methods_unchanged() {
    let src = r#"
public enum Color {
    RED,
    GREEN,
    BLUE;
}
"#;
    let out = idx(src, Language::Java);
    assert!(out.contains("RED"));
    assert!(out.contains("GREEN"));
    assert!(out.contains("BLUE"));
}

#[test]
fn java_enum_with_fields_and_constructor() {
    let src = r#"
public enum Planet {
    MERCURY(3.303e+23, 2.4397e6),
    VENUS(4.869e+24, 6.0518e6);

    private final double mass;
    private final double radius;

    Planet(double mass, double radius) {
        this.mass = mass;
        this.radius = radius;
    }

    public double surfaceGravity() {
        return 6.67300E-11 * mass / (radius * radius);
    }
}
"#;
    let out = idx(src, Language::Java);
    assert!(out.contains("MERCURY"), "missing MERCURY");
    assert!(out.contains("VENUS"), "missing VENUS");
    assert!(out.contains("private final double mass"), "missing mass field");
    assert!(out.contains("Planet(double mass, double radius)"), "missing constructor");
    assert!(out.contains("public double surfaceGravity()"), "missing method");
}

#[test]
fn ts_top_level_expressions() {
    let src = "\
import express from 'express';

const app = express();
let server;
var config = {};

module.exports = { app };
exports.handler = handler;

app.use(middleware());
app.get('/api', handler);
router.post('/login', auth);

console.log('starting');
process.exit(1);

export default class App {}
";
    let out = index_source(src.as_bytes(), Language::TypeScript).unwrap();

    // const should be in consts:
    assert!(out.contains("consts:"), "missing consts section in:\n{out}");
    assert!(out.contains("app"), "missing app const in:\n{out}");

    // let/var should be in exprs:
    assert!(out.contains("exprs:"), "missing exprs section in:\n{out}");
    assert!(out.contains("server"), "missing let server in:\n{out}");
    assert!(out.contains("config"), "missing var config in:\n{out}");

    // Assignment expressions should be in exprs:
    assert!(out.contains("module.exports"), "missing module.exports in:\n{out}");
    assert!(out.contains("exports.handler"), "missing exports.handler in:\n{out}");

    // Dotted method calls should be in exprs:
    assert!(out.contains("app.use"), "missing app.use in:\n{out}");
    assert!(out.contains("app.get"), "missing app.get in:\n{out}");
    assert!(out.contains("router.post"), "missing router.post in:\n{out}");

    // Noise should NOT appear
    assert!(!out.contains("console.log"), "console.log should be filtered in:\n{out}");
    assert!(!out.contains("process.exit"), "process.exit should be filtered in:\n{out}");

    // export default should appear
    assert!(out.contains("App"), "missing export default class App in:\n{out}");
}

#[test]
fn ts_test_calls_collapsed() {
    let src = "\
import { expect } from 'vitest';

export function helper(): string { return ''; }

describe('auth', () => {
  it('should login', () => {
    expect(true).toBe(true);
  });
});

test('standalone test', () => {
  expect(1).toBe(1);
});
";
    let out = index_source(src.as_bytes(), Language::TypeScript).unwrap();
    assert!(out.contains("tests:"), "missing tests section in:\n{out}");
    assert!(!out.contains("describe"), "describe should be collapsed in:\n{out}");
    assert!(!out.contains("standalone"), "standalone test should be collapsed in:\n{out}");
    assert!(out.contains("helper"), "helper should be visible in:\n{out}");
}
    #[test]
    fn rust_all_sections() {
        let src = "\
//! Module doc
use std::collections::HashMap;
use std::io;

const MAX: usize = 1024;
static COUNTER: AtomicU64 = AtomicU64::new(0);

#[derive(Debug, Clone)]
pub struct Config {
    pub name: String,
    pub port: u16,
}

enum Color { Red, Green }

pub trait Handler {
    fn handle(&self, req: Request) -> Response;
}

impl Display for Foo {
    fn fmt(&self, f: &mut Formatter) -> fmt::Result {
        write!(f, \"Foo\")
    }
}

impl Config {
    pub fn new(name: String) -> Self { todo!() }
}

/// Process the input string.
pub fn process(input: &str) -> Result<String, Error> { todo!() }

pub mod utils;

macro_rules! my_macro { () => {}; }
";
        let out = idx(src, Language::Rust);
        has(&out, &[
            "module doc:",
            "imports:",
            "std::",
            "consts:",
            "MAX: usize",
            "static COUNTER: AtomicU64",
            "types:",
            "#[derive(Debug, Clone)]",
            "pub struct Config",
            "traits:",
            "pub Handler",
            "impls:",
            "Display for Foo",
            "Config",
            "fns:",
            "pub process(input: &str)",
            "/// Process the input string.",
            "mod:",
            "pub utils",
            "macros:",
            "my_macro!",
        ]);
    }

    #[test]
    fn rust_test_module_collapsed() {
        let src = "fn main() {}\n\n#[cfg(test)]\nmod tests {\n    #[test]\n    fn it_works() {}\n}\n";
        let out = idx(src, Language::Rust);
        has(&out, &["tests:"]);
        lacks(&out, &["it_works"]);
    }

    #[test]
    fn extract_all_returns_api_and_skeleton() {
        let src = "pub struct Foo {}\npub fn bar() {}\nfn private() {}\n";
        let (api, skeleton) = extract_all(src.as_bytes(), Language::Rust).ok().unwrap();
        assert!(api.types.contains(&"Foo".to_string()));
        assert!(api.functions.iter().any(|f| f.starts_with("bar(")));
        assert!(!api.functions.iter().any(|f| f.starts_with("private(")));
        assert!(skeleton.contains("types:"));
        assert!(skeleton.contains("Foo"));
        assert!(skeleton.contains("fns:"));
        assert!(skeleton.contains("bar()"));
    }

    #[test]
    fn rust_doc_comment_extracted() {
        let src = "\
/// Fetches user from the database.
pub fn fetch_user(id: &str) -> User { todo!() }

/// Configuration for the service.
pub struct Config {
    pub host: String,
}

fn no_doc() {}
";
        let out = idx(src, Language::Rust);
        has(&out, &[
            "/// Fetches user from the database.",
            "/// Configuration for the service.",
        ]);
        lacks(&out, &["/// no_doc"]);
    }

    #[test]
    fn rust_doc_multiline_takes_first() {
        let src = "\
/// Summary line here.
/// More details on second line.
/// Even more details.
pub fn documented() {}
";
        let out = idx(src, Language::Rust);
        has(&out, &["/// Summary line here."]);
        lacks(&out, &["More details", "Even more"]);
    }

    #[test]
    fn rust_doc_with_attrs() {
        let src = "\
/// Does the thing.
#[derive(Debug)]
pub struct Thing {}
";
        let out = idx(src, Language::Rust);
        has(&out, &["/// Does the thing."]);
    }

    #[test]
    fn rust_no_doc_no_line() {
        let src = "pub fn bare() {}\n";
        let out = idx(src, Language::Rust);
        lacks(&out, &["///"]);
    }

    #[test]
    fn rust_empty_doc_comment_ignored() {
        let src = "///\n///   \npub fn blank_doc() {}\n";
        let out = idx(src, Language::Rust);
        lacks(&out, &["/// \n"]);
        // The output should contain the function but no doc line
        has(&out, &["pub blank_doc()"]);
    }

    #[test]
    fn rust_block_doc_comment_ignored() {
        // Rust /** */ block doc comments are intentionally not extracted.
        // They are extremely rare in practice (/// is the overwhelming convention)
        // and is_doc_comment only matches line_comment nodes, not block_comment.
        let src = "/** Block doc. */\npub fn block_doc() {}\n";
        let out = idx(src, Language::Rust);
        has(&out, &["pub block_doc()"]);
        lacks(&out, &["/// Block doc"]);
    }

    #[test]
    fn doc_comment_truncated_at_120() {
        let long_doc = format!("/// {}", "a".repeat(130));
        let src = format!("{long_doc}\npub fn long_doc() {{}}\n");
        let out = idx(&src, Language::Rust);
        assert!(out.contains("..."), "expected truncation in:\n{out}");
        // The doc line in output should be <= 120 chars (excluding the "    /// " prefix)
        for line in out.lines() {
            if line.contains("/// ") && line.contains("...") {
                let doc_content = line.trim().strip_prefix("/// ").unwrap();
                assert!(doc_content.chars().count() <= 120,
                    "doc too long ({} chars): {doc_content}", doc_content.chars().count());
            }
        }
    }

#[test]
fn rust_skeleton_exact() {
    let src = "use std::io;\n\n/// A point.\n#[derive(Debug)]\npub struct P {\n    pub x: i32,\n}\n\nimpl P {\n    pub fn new() -> Self {\n        make()\n    }\n}\n";
    let out = idx(src, Language::Rust);
    assert_eq!(
        out,
        "imports: [1]\n  std::io\n\ntypes:\n  #[derive(Debug)]\n  pub struct P [3-7]\n    /// A point.\n    pub x: i32\n\nimpls:\n  P [9-13]\n    pub new() -> Self [10-12]\n      \u{2192} calls: make\n"
    );
}
