//! Python skeletons: the entry of each top-level statement, which
//! statements are tests, the module docstring and the docstring line of a
//! definition.
use vstd::prelude::*;

use crate::index::api::{push_text, text_after, text_after_exec, text_or, text_or_exec};
use crate::index::body::{analyze_body, body_lines, insight_lines, lemma_body_lines};
use crate::index::outline::{
    entry_at, entry_opt, indented, new_entry, opt_entries, with_children, with_start,
};
use crate::index::skeleton::{EntryView, Section, SkeletonEntry};
use crate::index::syntax::{
    child_by_field, deref_opt, field_child, find_child, first_child, kind_child, kind_is,
    lemma_fits_below, node_text, rows_fit, text_of, SyntaxNode,
};
use crate::index::{line_range, range_text, truncate, truncated, Language};
use crate::text::{
    chars_of, contains, has_prefix, has_substring, is_upper, lines, lines_of, push_all, push_str,
    replace_all, replace_exec, starts_with, strip_prefix, strip_prefix_exec, strip_suffix,
    strip_suffix_exec, string_of, trim, trimmed, views,
};

verus! {

// ---- entries ----

/// The text of an import: without its leading `import ` or `from `,
/// trimmed, with ` import ` written `::`.
pub open spec fn py_import_text(n: SyntaxNode, src: Seq<u8>) -> Seq<char> {
    let t = text_of(n, src);
    let cleaned = trim(
        match strip_prefix(t, "import "@) {
            Some(r) => r,
            None => match strip_prefix(t, "from "@) {
                Some(r) => r,
                None => t,
            },
        },
    );
    replace_all(cleaned, " import "@, "::"@)
}

/// The function a class member defines, directly or under decorators.
pub open spec fn py_method_node(c: SyntaxNode) -> Option<SyntaxNode> {
    if c.kind@ == "decorated_definition"@ {
        kind_child(c, "function_definition"@)
    } else if c.kind@ == "function_definition"@ {
        Some(c)
    } else {
        None
    }
}

/// The texts of the decorators among `cs`.
pub open spec fn decorators(cs: Seq<SyntaxNode>, src: Seq<u8>) -> Seq<Seq<char>>
    decreases cs.len(),
{
    if cs.len() == 0 {
        Seq::empty()
    } else {
        decorators(cs.drop_last(), src) + if cs.last().kind@ == "decorator"@ {
            seq![text_of(cs.last(), src)]
        } else {
            Seq::empty()
        }
    }
}

/// The signature of a function node: name (or `_`), parameters (or `()`)
/// and ` -> ` with the return type.
pub open spec fn py_sig(f: SyntaxNode, src: Seq<u8>, dflt_name: Seq<char>) -> Seq<char> {
    text_or(field_child(f, "name"@), src, dflt_name) + text_or(
        field_child(f, "parameters"@),
        src,
        "()"@,
    ) + text_after(field_child(f, "return_type"@), src, " -> "@)
}

/// The lines a class member adds under its class: its decorators, its
/// signature with its line range, and its body summary indented.
pub open spec fn py_method_lines(c: SyntaxNode, src: Seq<u8>) -> Seq<Seq<char>> {
    match py_method_node(c) {
        Some(f) => (if c.kind@ == "decorated_definition"@ {
            decorators(c.children@, src)
        } else {
            Seq::empty()
        }).push(
            py_sig(f, src, "_"@) + " "@ + range_text((f.start_row + 1) as nat, (f.end_row + 1) as nat),
        ) + indented(body_lines(f, src, Language::Python), "  "@),
        None => Seq::empty(),
    }
}

/// The lines the members `cs` of a class body add under the class.
pub open spec fn py_methods(cs: Seq<SyntaxNode>, src: Seq<u8>) -> Seq<Seq<char>>
    decreases cs.len(),
{
    if cs.len() == 0 {
        Seq::empty()
    } else {
        py_methods(cs.drop_last(), src) + py_method_lines(cs.last(), src)
    }
}

/// The entry of a class: its name, with its methods under it; none without
/// a name or a body.
pub open spec fn py_class(n: SyntaxNode, src: Seq<u8>) -> Option<EntryView> {
    match field_child(n, "name"@) {
        Some(m) => match field_child(n, "body"@) {
            Some(b) => Some(
                with_children(
                    entry_at(Section::Class, n, text_of(m, src)),
                    py_methods(b.children@, src),
                ),
            ),
            None => None,
        },
        None => None,
    }
}

/// The entry of a (possibly decorated) function: its signature; none
/// without a name.
pub open spec fn py_function(n: SyntaxNode, src: Seq<u8>) -> Option<EntryView> {
    let actual = if n.kind@ == "decorated_definition"@ {
        kind_child(n, "function_definition"@)
    } else {
        Some(n)
    };
    match actual {
        Some(a) => match field_child(a, "name"@) {
            Some(_) => Some(entry_at(Section::Function, n, py_sig(a, src, Seq::empty()))),
            None => None,
        },
        None => None,
    }
}

/// Every character is an ASCII capital or `_` (a constant's name).
pub open spec fn all_caps(s: Seq<char>) -> bool {
    forall|i: int| 0 <= i < s.len() ==> is_upper(#[trigger] s[i]) || s[i] == '_'
}

/// An assignment to a name that is not a constant, shown as an expression
/// of the statement `p` (trimmed, cut to 80 characters).
pub open spec fn py_expr_assign(n: SyntaxNode, p: SyntaxNode, src: Seq<u8>) -> Option<EntryView> {
    match first_child(n) {
        Some(l) => if all_caps(text_of(l, src)) {
            None
        } else {
            Some(entry_at(Section::Expression, p, truncated(trim(text_of(n, src)), 80)))
        },
        None => None,
    }
}

/// Receivers whose dotted calls are noise in a skeleton.
pub open spec fn py_noisy(r: Seq<char>) -> bool {
    r == "console"@ || r == "process"@ || r == "logging"@ || r == "log"@ || r == "logger"@ || r
        == "Math"@ || r == "Object"@ || r == "Array"@ || r == "JSON"@
}

/// A call `receiver.method(..)` at the top level, shown as an expression of
/// the statement `p`, unless the receiver is noise; bare calls are not
/// shown.
pub open spec fn py_dotted_call(n: SyntaxNode, p: SyntaxNode, src: Seq<u8>) -> Option<EntryView> {
    match field_child(n, "function"@) {
        Some(f) => if f.kind@ != "attribute"@ {
            None
        } else if py_noisy(text_or(field_child(f, "object"@), src, Seq::empty())) {
            None
        } else {
            Some(entry_at(Section::Expression, p, truncated(trim(text_of(n, src)), 80)))
        },
        None => None,
    }
}

/// The `if __name__ == "__main__"` block.
pub open spec fn py_if_main(n: SyntaxNode, src: Seq<u8>) -> Option<EntryView> {
    match field_child(n, "condition"@) {
        Some(c) => if contains(text_of(c, src), "__name__"@) && contains(text_of(c, src), "__main__"@) {
            Some(entry_at(Section::Expression, n, "if __name__ == \"__main__\""@))
        } else {
            None
        },
        None => None,
    }
}

/// The first position from `i` on of a node of `cs` whose text is `t`.
pub open spec fn first_text_from(cs: Seq<SyntaxNode>, t: Seq<char>, src: Seq<u8>, i: int) -> Option<int>
    decreases cs.len() - i,
{
    if i < 0 || i >= cs.len() {
        None
    } else if text_of(cs[i], src) == t {
        Some(i)
    } else {
        first_text_from(cs, t, src, i + 1)
    }
}

/// The value of an assignment: the node after its first `=`.
pub open spec fn py_value(n: SyntaxNode, src: Seq<u8>) -> Option<SyntaxNode> {
    match first_text_from(n.children@, "="@, src, 0) {
        Some(j) => if j + 1 < n.children@.len() {
            Some(n.children@[j + 1])
        } else {
            None
        },
        None => None,
    }
}

/// A constant: an assignment to an all-capitals name, with ` = ` and its
/// value cut to 60 characters.
pub open spec fn py_constant(n: SyntaxNode, src: Seq<u8>) -> Option<EntryView> {
    match first_child(n) {
        Some(l) => if !all_caps(text_of(l, src)) {
            None
        } else {
            let v = match py_value(n, src) {
                Some(c) => " = "@ + truncated(text_of(c, src), 60),
                None => Seq::empty(),
            };
            Some(entry_at(Section::Constant, n, text_of(l, src) + v))
        },
        None => None,
    }
}

/// The entry of a top-level Python statement, if it has one.
pub open spec fn py_entry(c: SyntaxNode, src: Seq<u8>) -> Option<EntryView> {
    let k = c.kind@;
    if k == "import_statement"@ || k == "import_from_statement"@ {
        Some(entry_at(Section::Import, c, py_import_text(c, src)))
    } else if k == "class_definition"@ {
        py_class(c, src)
    } else if k == "function_definition"@ {
        py_function(c, src)
    } else if k == "decorated_definition"@ {
        match kind_child(c, "class_definition"@) {
            Some(i) => match py_class(i, src) {
                Some(e) => Some(with_start(e, (c.start_row + 1) as nat)),
                None => None,
            },
            None => match kind_child(c, "function_definition"@) {
                Some(_) => py_function(c, src),
                None => None,
            },
        }
    } else if k == "expression_statement"@ {
        match first_child(c) {
            Some(x) => if x.kind@ == "assignment"@ {
                match py_constant(x, src) {
                    Some(e) => Some(e),
                    None => py_expr_assign(x, c, src),
                }
            } else if x.kind@ == "call"@ {
                py_dotted_call(x, c, src)
            } else {
                None
            },
            None => None,
        }
    } else if k == "if_statement"@ {
        py_if_main(c, src)
    } else {
        None
    }
}

/// The entries of a top-level Python statement (at most one).
pub open spec fn py_entries(c: SyntaxNode, src: Seq<u8>) -> Seq<EntryView> {
    opt_entries(py_entry(c, src))
}

// ---- tests and docs ----

/// The node has a name that starts with `p`.
pub open spec fn name_starts(n: SyntaxNode, src: Seq<u8>, p: Seq<char>) -> bool {
    match field_child(n, "name"@) {
        Some(m) => starts_with(text_of(m, src), p),
        None => false,
    }
}

/// A test: a function named `test_..` or a class named `Test..`, possibly
/// decorated.
pub open spec fn py_is_test(c: SyntaxNode, src: Seq<u8>) -> bool {
    if c.kind@ == "function_definition"@ {
        name_starts(c, src, "test_"@)
    } else if c.kind@ == "decorated_definition"@ {
        match kind_child(c, "function_definition"@) {
            Some(f) => name_starts(f, src, "test_"@),
            None => match kind_child(c, "class_definition"@) {
                Some(k) => name_starts(k, src, "Test"@),
                None => false,
            },
        }
    } else if c.kind@ == "class_definition"@ {
        name_starts(c, src, "Test"@)
    } else {
        false
    }
}

/// A module docstring: a statement that is a `"""` string.
pub open spec fn py_module_doc(c: SyntaxNode, src: Seq<u8>) -> bool {
    c.kind@ == "expression_statement"@ && match first_child(c) {
        Some(x) => x.kind@ == "string"@ && starts_with(text_of(x, src), "\"\"\""@),
        None => false,
    }
}

/// The definition a top-level node documents.
pub open spec fn py_def_node(n: SyntaxNode) -> Option<SyntaxNode> {
    if n.kind@ == "decorated_definition"@ {
        match kind_child(n, "function_definition"@) {
            Some(f) => Some(f),
            None => match kind_child(n, "class_definition"@) {
                Some(k) => Some(k),
                None => kind_child(n, "async_function_definition"@),
            },
        }
    } else {
        Some(n)
    }
}

/// A docstring without its opening triple quote (with an optional `r`,
/// `u` or `b` before it); none when it does not open with one.
pub open spec fn py_quote_open(t: Seq<char>) -> Option<Seq<char>> {
    match strip_prefix(t, "r\"\"\""@) {
        Some(r) => Some(r),
        None => match strip_prefix(t, "u\"\"\""@) {
            Some(r) => Some(r),
            None => match strip_prefix(t, "b\"\"\""@) {
                Some(r) => Some(r),
                None => match strip_prefix(t, "\"\"\""@) {
                    Some(r) => Some(r),
                    None => match strip_prefix(t, "r'''"@) {
                        Some(r) => Some(r),
                        None => match strip_prefix(t, "u'''"@) {
                            Some(r) => Some(r),
                            None => match strip_prefix(t, "b'''"@) {
                                Some(r) => Some(r),
                                None => strip_prefix(t, "'''"@),
                            },
                        },
                    },
                },
            },
        },
    }
}

/// A docstring without its closing triple quote, if it has one.
pub open spec fn py_quote_close(t: Seq<char>) -> Seq<char> {
    match strip_suffix(t, "\"\"\""@) {
        Some(r) => r,
        None => match strip_suffix(t, "'''"@) {
            Some(r) => r,
            None => t,
        },
    }
}

/// The first of `ls` that is not blank, trimmed.
pub open spec fn first_nonblank(ls: Seq<Seq<char>>) -> Option<Seq<char>>
    decreases ls.len(),
{
    if ls.len() == 0 {
        None
    } else if trim(ls[0]).len() > 0 {
        Some(trim(ls[0]))
    } else {
        first_nonblank(ls.drop_first())
    }
}

/// The doc line of a definition: the first non-blank line of the
/// triple-quoted string that opens its body, cut to 120 characters.
pub open spec fn py_doc_line(n: SyntaxNode, src: Seq<u8>) -> Option<Seq<char>> {
    match py_def_node(n) {
        Some(d) => match field_child(d, "body"@) {
            Some(b) => match first_child(b) {
                Some(s) => if s.kind@ != "expression_statement"@ {
                    None
                } else {
                    match first_child(s) {
                        Some(q) => if q.kind@ != "string"@ {
                            None
                        } else {
                            match py_quote_open(text_of(q, src)) {
                                Some(a) => match first_nonblank(lines(py_quote_close(a))) {
                                    Some(l) => Some(truncated(l, 120)),
                                    None => None,
                                },
                                None => None,
                            }
                        },
                        None => None,
                    }
                },
                None => None,
            },
            None => None,
        },
        None => None,
    }
}

// ---- computing them ----

/// Whether every character is an ASCII capital or `_`.
fn all_caps_exec(s: &[char]) -> (b: bool)
    ensures
        b == all_caps(s@),
{
    let mut i: usize = 0;
    while i < s.len()
        invariant
            i <= s.len(),
            forall|j: int| 0 <= j < i ==> is_upper(#[trigger] s@[j]) || s@[j] == '_',
        decreases s.len() - i,
    {
        let c = s[i];
        if !(('A' <= c && c <= 'Z') || c == '_') {
            assert(!(is_upper(s@[i as int]) || s@[i as int] == '_'));
            return false;
        }
        i += 1;
    }
    true
}

/// The first child of a node, if it has one.
fn first_of(n: &SyntaxNode) -> (r: Option<&SyntaxNode>)
    ensures
        deref_opt(r) == first_child(*n),
{
    if n.children.len() > 0 {
        Some(&n.children[0])
    } else {
        None
    }
}

/// The entry of an import statement.
fn py_import(n: &SyntaxNode, source: &[u8]) -> (r: SkeletonEntry)
    requires
        rows_fit(*n),
    ensures
        r@ == entry_at(Section::Import, *n, py_import_text(*n, source@)),
{
    let t = node_text(n, source);
    let imp = chars_of("import ");
    let from = chars_of("from ");
    let stripped = match strip_prefix_exec(t.as_slice(), imp.as_slice()) {
        Some(r) => r,
        None => match strip_prefix_exec(t.as_slice(), from.as_slice()) {
            Some(r) => r,
            None => t,
        },
    };
    let cleaned = trimmed(stripped.as_slice());
    let pat = chars_of(" import ");
    let rep = chars_of("::");
    proof {
        reveal_strlit(" import ");
    }
    let normalized = replace_exec(cleaned.as_slice(), pat.as_slice(), rep.as_slice());
    new_entry(Section::Import, n, normalized.as_slice())
}

/// The signature of a function node with `dflt` for a missing name.
fn py_sig_exec(f: &SyntaxNode, source: &[u8], dflt: &str) -> (r: Vec<char>)
    ensures
        r@ == py_sig(*f, source@, dflt@),
{
    let mut r = text_or_exec(child_by_field(f, "name"), source, dflt);
    let p = text_or_exec(child_by_field(f, "parameters"), source, "()");
    push_all(&mut r, p.as_slice());
    let t = text_after_exec(child_by_field(f, "return_type"), source, " -> ");
    push_all(&mut r, t.as_slice());
    r
}

/// Appends the lines a class member adds under its class.
fn push_py_method(out: &mut Vec<String>, c: &SyntaxNode, source: &[u8])
    requires
        rows_fit(*c),
    ensures
        views(final(out)@) == views(old(out)@) + py_method_lines(*c, source@),
{
    let ghost o0 = views(out@);
    proof {
        lemma_fits_below(*c);
    }
    let decorated = kind_is(c, "decorated_definition");
    let f_opt = if decorated {
        find_child(c, "function_definition")
    } else if kind_is(c, "function_definition") {
        Some(c)
    } else {
        None
    };
    assert(deref_opt(f_opt) == py_method_node(*c));
    match f_opt {
        None => {},
        Some(f) => {
            assert(rows_fit(*f));
            if decorated {
                let mut i: usize = 0;
                while i < c.children.len()
                    invariant
                        i <= c.children@.len(),
                        views(out@) == o0 + decorators(c.children@.take(i as int), source@),
                    decreases c.children@.len() - i,
                {
                    assert(c.children@.take(i + 1).drop_last() =~= c.children@.take(i as int));
                    let d = &c.children[i];
                    if kind_is(d, "decorator") {
                        let t = node_text(d, source);
                        push_text(out, t.as_slice());
                    }
                    i += 1;
                }
                assert(c.children@.take(i as int) =~= c.children@);
            }
            let ghost o1 = views(out@);
            let mut line = py_sig_exec(f, source, "_");
            push_str(&mut line, " ");
            let lr = line_range(f.start_row + 1, f.end_row + 1);
            push_all(&mut line, chars_of(lr.as_str()).as_slice());
            push_text(out, line.as_slice());
            let ghost o2 = views(out@);
            let ins = analyze_body(f, source, Language::Python);
            proof {
                lemma_body_lines(ins, *f, source@, Language::Python);
            }
            let ls = ins.format_lines();
            let ghost bl = views(ls@);
            let mut j: usize = 0;
            while j < ls.len()
                invariant
                    j <= ls@.len(),
                    bl == views(ls@),
                    views(out@) == o2 + indented(bl.take(j as int), "  "@),
                decreases ls@.len() - j,
            {
                let mut l = chars_of("  ");
                push_all(&mut l, chars_of(ls[j].as_str()).as_slice());
                push_text(out, l.as_slice());
                assert(indented(bl.take(j + 1), "  "@) =~= indented(bl.take(j as int), "  "@).push(
                    "  "@ + bl[j as int],
                ));
                j += 1;
            }
            assert(bl.take(j as int) =~= bl);
            assert(views(out@) =~= o0 + py_method_lines(*c, source@));
        },
    }
}

/// The entry of a class node.
fn py_class_exec(n: &SyntaxNode, source: &[u8]) -> (r: Option<SkeletonEntry>)
    requires
        rows_fit(*n),
    ensures
        entry_opt(r) == py_class(*n, source@),
{
    proof {
        lemma_fits_below(*n);
    }
    let name = match child_by_field(n, "name") {
        Some(m) => node_text(m, source),
        None => {
            return None;
        },
    };
    let body = match child_by_field(n, "body") {
        Some(b) => b,
        None => {
            return None;
        },
    };
    proof {
        lemma_fits_below(*body);
    }
    let mut methods: Vec<String> = Vec::new();
    let mut i: usize = 0;
    while i < body.children.len()
        invariant
            i <= body.children@.len(),
            rows_fit(*body),
            forall|k: int| 0 <= k < body.children@.len() ==> #[trigger] rows_fit(body.children@[k]),
            views(methods@) == py_methods(body.children@.take(i as int), source@),
        decreases body.children@.len() - i,
    {
        assert(body.children@.take(i + 1).drop_last() =~= body.children@.take(i as int));
        push_py_method(&mut methods, &body.children[i], source);
        i += 1;
    }
    assert(body.children@.take(i as int) =~= body.children@);
    let mut e = new_entry(Section::Class, n, name.as_slice());
    e.children = methods;
    Some(e)
}

/// The entry of a (possibly decorated) function node.
fn py_function_exec(n: &SyntaxNode, source: &[u8]) -> (r: Option<SkeletonEntry>)
    requires
        rows_fit(*n),
    ensures
        entry_opt(r) == py_function(*n, source@),
{
    proof {
        lemma_fits_below(*n);
    }
    let actual = if kind_is(n, "decorated_definition") {
        match find_child(n, "function_definition") {
            Some(a) => a,
            None => {
                return None;
            },
        }
    } else {
        n
    };
    match child_by_field(actual, "name") {
        Some(_) => {
            let sig = py_sig_exec(actual, source, "");
            proof {
                reveal_strlit("");
            }
            assert(sig@ == py_sig(*actual, source@, Seq::empty()));
            Some(new_entry(Section::Function, n, sig.as_slice()))
        },
        None => None,
    }
}

/// A trimmed text cut to `max` characters.
fn cut_trimmed(t: &[char], max: usize) -> (r: Vec<char>)
    ensures
        r@ == truncated(trim(t@), max as nat),
{
    let tr = trimmed(t);
    let s = string_of(tr.as_slice());
    let c = truncate(s.as_str(), max);
    chars_of(c.as_str())
}

/// A text cut to `max` characters.
fn cut(t: &[char], max: usize) -> (r: Vec<char>)
    ensures
        r@ == truncated(t@, max as nat),
{
    let s = string_of(t);
    let c = truncate(s.as_str(), max);
    chars_of(c.as_str())
}

/// An assignment that is not to a constant, as an expression of `p`.
fn py_expr_assign_exec(n: &SyntaxNode, p: &SyntaxNode, source: &[u8]) -> (r: Option<SkeletonEntry>)
    requires
        rows_fit(*p),
    ensures
        entry_opt(r) == py_expr_assign(*n, *p, source@),
{
    match first_of(n) {
        Some(l) => {
            let name = node_text(l, source);
            if all_caps_exec(name.as_slice()) {
                None
            } else {
                let t = node_text(n, source);
                let text = cut_trimmed(t.as_slice(), 80);
                Some(new_entry(Section::Expression, p, text.as_slice()))
            }
        },
        None => None,
    }
}

/// Whether a receiver is one whose calls are noise.
fn py_noisy_exec(r: &[char]) -> (b: bool)
    ensures
        b == py_noisy(r@),
{
    let s = string_of(r);
    let t = s.as_str();
    crate::text::str_is(t, "console") || crate::text::str_is(t, "process") || crate::text::str_is(
        t,
        "logging",
    ) || crate::text::str_is(t, "log") || crate::text::str_is(t, "logger") || crate::text::str_is(
        t,
        "Math",
    ) || crate::text::str_is(t, "Object") || crate::text::str_is(t, "Array")
        || crate::text::str_is(t, "JSON")
}

/// A dotted call at the top level, as an expression of `p`.
fn py_dotted_call_exec(n: &SyntaxNode, p: &SyntaxNode, source: &[u8]) -> (r: Option<SkeletonEntry>)
    requires
        rows_fit(*p),
    ensures
        entry_opt(r) == py_dotted_call(*n, *p, source@),
{
    match child_by_field(n, "function") {
        Some(f) => {
            if !kind_is(f, "attribute") {
                return None;
            }
            let recv = text_or_exec(child_by_field(f, "object"), source, "");
            proof {
                reveal_strlit("");
            }
            assert(recv@ == text_or(field_child(*f, "object"@), source@, Seq::empty()));
            if py_noisy_exec(recv.as_slice()) {
                return None;
            }
            let t = node_text(n, source);
            let text = cut_trimmed(t.as_slice(), 80);
            Some(new_entry(Section::Expression, p, text.as_slice()))
        },
        None => None,
    }
}

/// The `if __name__ == "__main__"` block, if `n` is one.
fn py_if_main_exec(n: &SyntaxNode, source: &[u8]) -> (r: Option<SkeletonEntry>)
    requires
        rows_fit(*n),
    ensures
        entry_opt(r) == py_if_main(*n, source@),
{
    match child_by_field(n, "condition") {
        Some(c) => {
            let t = node_text(c, source);
            if has_substring(t.as_slice(), chars_of("__name__").as_slice()) && has_substring(
                t.as_slice(),
                chars_of("__main__").as_slice(),
            ) {
                let text = chars_of("if __name__ == \"__main__\"");
                Some(new_entry(Section::Expression, n, text.as_slice()))
            } else {
                None
            }
        },
        None => None,
    }
}

/// The constant an assignment defines, if its name is in capitals.
fn py_constant_exec(n: &SyntaxNode, source: &[u8]) -> (r: Option<SkeletonEntry>)
    requires
        rows_fit(*n),
    ensures
        entry_opt(r) == py_constant(*n, source@),
{
    match first_of(n) {
        Some(l) => {
            let name = node_text(l, source);
            if !all_caps_exec(name.as_slice()) {
                return None;
            }
            let eq = chars_of("=");
            let mut found: Option<usize> = None;
            let mut i: usize = 0;
            while i < n.children.len() && found.is_none()
                invariant
                    i <= n.children@.len(),
                    eq@ == "="@,
                    match found {
                        Some(j) => first_text_from(n.children@, "="@, source@, 0) == Some(j as int)
                            && j < n.children@.len(),
                        None => first_text_from(n.children@, "="@, source@, 0) == first_text_from(
                            n.children@,
                            "="@,
                            source@,
                            i as int,
                        ),
                    },
                decreases n.children@.len() - i, if found is Some { 0int } else { 1int },
            {
                let t = node_text(&n.children[i], source);
                if crate::text::chars_eq(t.as_slice(), eq.as_slice()) {
                    found = Some(i);
                } else {
                    i += 1;
                }
            }
            let mut text = name;
            match found {
                Some(j) => {
                    if j + 1 < n.children.len() {
                        push_str(&mut text, " = ");
                        let v = node_text(&n.children[j + 1], source);
                        let vc = cut(v.as_slice(), 60);
                        push_all(&mut text, vc.as_slice());
                    }
                },
                None => {
                    assert(first_text_from(n.children@, "="@, source@, i as int) is None);
                },
            }
            assert(text@ == text_of(*l, source@) + match py_value(*n, source@) {
                Some(c) => " = "@ + truncated(text_of(c, source@), 60),
                None => Seq::empty(),
            });
            Some(new_entry(Section::Constant, n, text.as_slice()))
        },
        None => None,
    }
}

/// The entry of a top-level Python statement, if it has one.
pub fn py_entry_exec(c: &SyntaxNode, source: &[u8]) -> (r: Option<SkeletonEntry>)
    requires
        rows_fit(*c),
    ensures
        entry_opt(r) == py_entry(*c, source@),
{
    proof {
        lemma_fits_below(*c);
    }
    if kind_is(c, "import_statement") || kind_is(c, "import_from_statement") {
        Some(py_import(c, source))
    } else if kind_is(c, "class_definition") {
        py_class_exec(c, source)
    } else if kind_is(c, "function_definition") {
        py_function_exec(c, source)
    } else if kind_is(c, "decorated_definition") {
        match find_child(c, "class_definition") {
            Some(i) => match py_class_exec(i, source) {
                Some(mut e) => {
                    e.line_start = c.start_row + 1;
                    Some(e)
                },
                None => None,
            },
            None => match find_child(c, "function_definition") {
                Some(_) => py_function_exec(c, source),
                None => None,
            },
        }
    } else if kind_is(c, "expression_statement") {
        match first_of(c) {
            Some(x) => {
                if kind_is(x, "assignment") {
                    assert(rows_fit(*x));
                    match py_constant_exec(x, source) {
                        Some(e) => Some(e),
                        None => py_expr_assign_exec(x, c, source),
                    }
                } else if kind_is(x, "call") {
                    py_dotted_call_exec(x, c, source)
                } else {
                    None
                }
            },
            None => None,
        }
    } else if kind_is(c, "if_statement") {
        py_if_main_exec(c, source)
    } else {
        None
    }
}

/// Whether a node has a name that starts with `p`.
pub fn name_starts_exec(n: &SyntaxNode, source: &[u8], p: &str) -> (b: bool)
    ensures
        b == name_starts(*n, source@, p@),
{
    match child_by_field(n, "name") {
        Some(m) => {
            let t = node_text(m, source);
            has_prefix(t.as_slice(), chars_of(p).as_slice())
        },
        None => false,
    }
}

/// Whether a top-level statement is a test.
pub fn py_is_test_exec(c: &SyntaxNode, source: &[u8]) -> (b: bool)
    ensures
        b == py_is_test(*c, source@),
{
    if kind_is(c, "function_definition") {
        name_starts_exec(c, source, "test_")
    } else if kind_is(c, "decorated_definition") {
        match find_child(c, "function_definition") {
            Some(f) => name_starts_exec(f, source, "test_"),
            None => match find_child(c, "class_definition") {
                Some(k) => name_starts_exec(k, source, "Test"),
                None => false,
            },
        }
    } else if kind_is(c, "class_definition") {
        name_starts_exec(c, source, "Test")
    } else {
        false
    }
}

/// Whether a top-level statement is the module docstring.
pub fn py_module_doc_exec(c: &SyntaxNode, source: &[u8]) -> (b: bool)
    ensures
        b == py_module_doc(*c, source@),
{
    if !kind_is(c, "expression_statement") {
        return false;
    }
    match first_of(c) {
        Some(x) => kind_is(x, "string") && has_prefix(
            node_text(x, source).as_slice(),
            chars_of("\"\"\"").as_slice(),
        ),
        None => false,
    }
}

/// A docstring without its opening triple quote.
fn py_quote_open_exec(t: &[char]) -> (r: Option<Vec<char>>)
    ensures
        match r {
            Some(a) => py_quote_open(t@) == Some(a@),
            None => py_quote_open(t@) is None,
        },
{
    let opens = ["r\"\"\"", "u\"\"\"", "b\"\"\"", "\"\"\"", "r'''", "u'''", "b'''", "'''"];
    match strip_prefix_exec(t, chars_of(opens[0]).as_slice()) {
        Some(r) => Some(r),
        None => match strip_prefix_exec(t, chars_of(opens[1]).as_slice()) {
            Some(r) => Some(r),
            None => match strip_prefix_exec(t, chars_of(opens[2]).as_slice()) {
                Some(r) => Some(r),
                None => match strip_prefix_exec(t, chars_of(opens[3]).as_slice()) {
                    Some(r) => Some(r),
                    None => match strip_prefix_exec(t, chars_of(opens[4]).as_slice()) {
                        Some(r) => Some(r),
                        None => match strip_prefix_exec(t, chars_of(opens[5]).as_slice()) {
                            Some(r) => Some(r),
                            None => match strip_prefix_exec(t, chars_of(opens[6]).as_slice()) {
                                Some(r) => Some(r),
                                None => strip_prefix_exec(t, chars_of(opens[7]).as_slice()),
                            },
                        },
                    },
                },
            },
        },
    }
}

/// A docstring without its closing triple quote.
fn py_quote_close_exec(t: &[char]) -> (r: Vec<char>)
    ensures
        r@ == py_quote_close(t@),
{
    match strip_suffix_exec(t, chars_of("\"\"\"").as_slice()) {
        Some(r) => r,
        None => match strip_suffix_exec(t, chars_of("'''").as_slice()) {
            Some(r) => r,
            None => crate::text::copy_range(t, 0, t.len()),
        },
    }
}

/// The doc line of a top-level definition, from its docstring.
pub fn py_doc_line_exec(n: &SyntaxNode, source: &[u8]) -> (r: Option<Vec<char>>)
    ensures
        match r {
            Some(d) => py_doc_line(*n, source@) == Some(d@),
            None => py_doc_line(*n, source@) is None,
        },
{
    let d = if kind_is(n, "decorated_definition") {
        match find_child(n, "function_definition") {
            Some(f) => f,
            None => match find_child(n, "class_definition") {
                Some(k) => k,
                None => match find_child(n, "async_function_definition") {
                    Some(a) => a,
                    None => {
                        return None;
                    },
                },
            },
        }
    } else {
        n
    };
    assert(py_def_node(*n) == Some(*d));
    let b = match child_by_field(d, "body") {
        Some(b) => b,
        None => {
            return None;
        },
    };
    let s = match first_of(b) {
        Some(s) => s,
        None => {
            return None;
        },
    };
    if !kind_is(s, "expression_statement") {
        return None;
    }
    let q = match first_of(s) {
        Some(q) => q,
        None => {
            return None;
        },
    };
    if !kind_is(q, "string") {
        return None;
    }
    let text = node_text(q, source);
    let after = match py_quote_open_exec(text.as_slice()) {
        Some(a) => a,
        None => {
            return None;
        },
    };
    let inner = py_quote_close_exec(after.as_slice());
    let ls = lines_of(inner.as_slice());
    let ghost all = lines(inner@);
    let mut i: usize = 0;
    assert(all.skip(0) =~= all);
    assert(py_doc_line(*n, source@) == match first_nonblank(all) {
        Some(l) => Some(truncated(l, 120)),
        None => None,
    });
    while i < ls.len()
        invariant
            i <= ls@.len(),
            ls@.len() == all.len(),
            forall|k: int| 0 <= k < ls@.len() ==> #[trigger] ls@[k]@ == all[k],
            first_nonblank(all) == first_nonblank(all.skip(i as int)),
            py_doc_line(*n, source@) == match first_nonblank(all) {
                Some(l) => Some(truncated(l, 120)),
                None => None,
            },
        decreases ls@.len() - i,
    {
        let t = trimmed(ls[i].as_slice());
        assert(all.skip(i as int)[0] == all[i as int]);
        if t.len() > 0 {
            assert(first_nonblank(all.skip(i as int)) == Some(t@));
            return Some(cut(t.as_slice(), 120));
        }
        assert(all.skip(i as int).drop_first() =~= all.skip(i + 1));
        i += 1;
    }
    assert(all.skip(i as int).len() == 0);
    None
}

} // verus!
