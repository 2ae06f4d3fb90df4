//! TypeScript and JavaScript skeletons: the entry of each top-level
//! statement, which statements are test suites, and the doc comment line
//! of a declaration.
use vstd::prelude::*;

use crate::index::api::{push_text, text_or, text_or_exec, ts_return};
use crate::index::body::{analyze_body, body_lines, lemma_body_lines};
use crate::index::outline::{
    entry_at, entry_opt, indented, new_entry, opt_entries, with_children,
};
use crate::index::skeleton::{EntryView, Section, SkeletonEntry};
use crate::index::syntax::{
    child_by_field, deref_opt, field_child, find_child, first_child, kind_child, kind_is,
    lemma_fits_below, node_text, rows_fit, text_of, SyntaxNode,
};
use crate::index::{line_range, range_text, truncate, truncated, Language};
use crate::text::{
    chars_eq, chars_of, has_prefix, lines, lines_of, push_all, push_str, starts_with, str_is,
    strip_prefix, strip_prefix_exec, strip_suffix, strip_suffix_exec, string_of, trim,
    trim_end_char, trim_end_char_exec, trim_start_char, trim_start_char_exec, trimmed, views,
};

verus! {

// ---- entries ----

/// `export ` for a declaration inside an export statement.
pub open spec fn export_prefix(exported: bool) -> Seq<char> {
    if exported {
        "export "@
    } else {
        Seq::empty()
    }
}

/// The text of an import: without its leading `import ` and trailing `;`.
pub open spec fn ts_import_text(n: SyntaxNode, src: Seq<u8>) -> Seq<char> {
    let t = text_of(n, src);
    trim_end_char(
        match strip_prefix(t, "import "@) {
            Some(r) => r,
            None => t,
        },
        ';',
    )
}

/// The lines a class member adds under its class: a method or field with
/// its parameters, return type and line range, and a method's body
/// summary indented.
pub open spec fn ts_member_lines(c: SyntaxNode, src: Seq<u8>) -> Seq<Seq<char>> {
    if c.kind@ == "method_definition"@ || c.kind@ == "public_field_definition"@ {
        seq![
            text_or(field_child(c, "name"@), src, "_"@) + text_or(
                field_child(c, "parameters"@),
                src,
                Seq::empty(),
            ) + ts_return(field_child(c, "return_type"@), src) + " "@ + range_text(
                (c.start_row + 1) as nat,
                (c.end_row + 1) as nat,
            ),
        ] + if c.kind@ == "method_definition"@ {
            indented(body_lines(c, src, Language::TypeScript), "  "@)
        } else {
            Seq::empty()
        }
    } else {
        Seq::empty()
    }
}

/// The lines of the members `cs` of a class body.
pub open spec fn ts_members(cs: Seq<SyntaxNode>, src: Seq<u8>) -> Seq<Seq<char>>
    decreases cs.len(),
{
    if cs.len() == 0 {
        Seq::empty()
    } else {
        ts_members(cs.drop_last(), src) + ts_member_lines(cs.last(), src)
    }
}

/// The entry of a class: its name, with its members under it.
pub open spec fn ts_class(n: SyntaxNode, src: Seq<u8>, exported: bool) -> Option<EntryView> {
    match field_child(n, "name"@) {
        Some(m) => match field_child(n, "body"@) {
            Some(b) => Some(
                with_children(
                    entry_at(Section::Class, n, export_prefix(exported) + text_of(m, src)),
                    ts_members(b.children@, src),
                ),
            ),
            None => None,
        },
        None => None,
    }
}

/// The entry of a function: name, parameters (or `()`) and return type.
pub open spec fn ts_function(n: SyntaxNode, src: Seq<u8>, exported: bool) -> Option<EntryView> {
    match field_child(n, "name"@) {
        Some(m) => Some(
            entry_at(
                Section::Function,
                n,
                export_prefix(exported) + text_of(m, src) + text_or(
                    field_child(n, "parameters"@),
                    src,
                    "()"@,
                ) + ts_return(field_child(n, "return_type"@), src),
            ),
        ),
        None => None,
    }
}

/// `s` without any run of `,` and `;` at its end.
pub open spec fn trim_end_punct(s: Seq<char>) -> Seq<char>
    decreases s.len(),
{
    if s.len() > 0 && (s.last() == ',' || s.last() == ';') {
        trim_end_punct(s.drop_last())
    } else {
        s
    }
}

/// The property and method signatures among `cs`, without trailing `,`
/// and `;`.
pub open spec fn ts_signatures(cs: Seq<SyntaxNode>, src: Seq<u8>) -> Seq<Seq<char>>
    decreases cs.len(),
{
    if cs.len() == 0 {
        Seq::empty()
    } else {
        ts_signatures(cs.drop_last(), src) + if cs.last().kind@ == "property_signature"@
            || cs.last().kind@ == "method_signature"@ {
            seq![trim_end_punct(text_of(cs.last(), src))]
        } else {
            Seq::empty()
        }
    }
}

/// The entry of an interface, with its signatures under it.
pub open spec fn ts_interface(n: SyntaxNode, src: Seq<u8>, exported: bool) -> Option<EntryView> {
    match field_child(n, "name"@) {
        Some(m) => match field_child(n, "body"@) {
            Some(b) => Some(
                with_children(
                    entry_at(
                        Section::Type,
                        n,
                        export_prefix(exported) + "interface "@ + text_of(m, src),
                    ),
                    ts_signatures(b.children@, src),
                ),
            ),
            None => None,
        },
        None => None,
    }
}

/// ` = ` and the text of an optional value cut to `max` characters.
pub open spec fn value_text(o: Option<SyntaxNode>, src: Seq<u8>, max: nat) -> Seq<char> {
    match o {
        Some(v) => " = "@ + truncated(text_of(v, src), max),
        None => Seq::empty(),
    }
}

/// The entry of a type alias, with its value cut to 80 characters.
pub open spec fn ts_type_alias(n: SyntaxNode, src: Seq<u8>, exported: bool) -> Option<EntryView> {
    match field_child(n, "name"@) {
        Some(m) => Some(
            entry_at(
                Section::Type,
                n,
                export_prefix(exported) + "type "@ + text_of(m, src) + value_text(
                    field_child(n, "value"@),
                    src,
                    80,
                ),
            ),
        ),
        None => None,
    }
}

/// The name, type and value (cut to 60 characters) of a declarator.
pub open spec fn ts_declarator(d: SyntaxNode, m: SyntaxNode, src: Seq<u8>) -> Seq<char> {
    text_of(m, src) + ts_return(field_child(d, "type"@), src) + value_text(
        field_child(d, "value"@),
        src,
        60,
    )
}

/// The entry of an enum.
pub open spec fn ts_enum(n: SyntaxNode, src: Seq<u8>, exported: bool) -> Option<EntryView> {
    match field_child(n, "name"@) {
        Some(m) => Some(
            entry_at(Section::Type, n, export_prefix(exported) + "enum "@ + text_of(m, src)),
        ),
        None => None,
    }
}

/// The entry of a `const`, `let` or `var` declaration: a constant for
/// `const`, else an expression that starts with its keyword.
pub open spec fn ts_lexical(n: SyntaxNode, src: Seq<u8>, exported: bool) -> Option<EntryView> {
    let kw = text_or(first_child(n), src, Seq::empty());
    match kind_child(n, "variable_declarator"@) {
        Some(d) => match field_child(d, "name"@) {
            Some(m) => if kw == "const"@ {
                Some(entry_at(Section::Constant, n, export_prefix(exported) + ts_declarator(d, m, src)))
            } else {
                Some(
                    entry_at(
                        Section::Expression,
                        n,
                        export_prefix(exported) + kw + " "@ + ts_declarator(d, m, src),
                    ),
                )
            },
            None => None,
        },
        None => None,
    }
}

/// A declaration kind an export statement exports.
pub open spec fn ts_exportable(k: Seq<char>) -> bool {
    k == "class_declaration"@ || k == "function_declaration"@ || k == "interface_declaration"@ || k
        == "type_alias_declaration"@ || k == "lexical_declaration"@ || k == "enum_declaration"@
}

/// The entry of an exported declaration.
pub open spec fn ts_exported(d: SyntaxNode, src: Seq<u8>) -> Option<EntryView> {
    let k = d.kind@;
    if k == "class_declaration"@ {
        ts_class(d, src, true)
    } else if k == "function_declaration"@ {
        ts_function(d, src, true)
    } else if k == "interface_declaration"@ {
        ts_interface(d, src, true)
    } else if k == "type_alias_declaration"@ {
        ts_type_alias(d, src, true)
    } else if k == "lexical_declaration"@ {
        ts_lexical(d, src, true)
    } else {
        ts_enum(d, src, true)
    }
}

/// The first position from `i` on of a declaration an export exports.
pub open spec fn first_exportable(cs: Seq<SyntaxNode>, i: int) -> Option<int>
    decreases cs.len() - i,
{
    if i < 0 || i >= cs.len() {
        None
    } else if ts_exportable(cs[i].kind@) {
        Some(i)
    } else {
        first_exportable(cs, i + 1)
    }
}

/// Receivers whose dotted calls are noise in a skeleton.
pub open spec fn ts_noisy(r: Seq<char>) -> bool {
    r == "console"@ || r == "process"@ || r == "logging"@ || r == "log"@ || r == "logger"@ || r
        == "Math"@ || r == "Object"@ || r == "Array"@ || r == "JSON"@
}

/// A statement that is an assignment, trimmed and cut to 80 characters.
pub open spec fn ts_assignment(n: SyntaxNode, src: Seq<u8>) -> Option<EntryView> {
    match first_child(n) {
        Some(x) => if x.kind@ == "assignment_expression"@ {
            Some(entry_at(Section::Expression, n, truncated(trim(text_of(x, src)), 80)))
        } else {
            None
        },
        None => None,
    }
}

/// A statement that is a call `receiver.method(..)` whose receiver is not
/// noise, trimmed and cut to 80 characters.
pub open spec fn ts_dotted_call(n: SyntaxNode, src: Seq<u8>) -> Option<EntryView> {
    match first_child(n) {
        Some(x) => if x.kind@ != "call_expression"@ {
            None
        } else {
            match field_child(x, "function"@) {
                Some(f) => if f.kind@ != "member_expression"@ {
                    None
                } else if ts_noisy(text_or(field_child(f, "object"@), src, Seq::empty())) {
                    None
                } else {
                    Some(entry_at(Section::Expression, n, truncated(trim(text_of(x, src)), 80)))
                },
                None => None,
            }
        },
        None => None,
    }
}

/// Some child of `cs` has the text `default`.
pub open spec fn has_default(cs: Seq<SyntaxNode>, src: Seq<u8>) -> bool {
    exists|i: int| 0 <= i < cs.len() && text_of(#[trigger] cs[i], src) == "default"@
}

/// An `export default ..` statement, without its trailing `;`, cut to 80
/// characters.
pub open spec fn ts_export_default(n: SyntaxNode, src: Seq<u8>) -> Option<EntryView> {
    if has_default(n.children@, src) {
        Some(
            entry_at(
                Section::Expression,
                n,
                truncated(trim_end_char(trim(text_of(n, src)), ';'), 80),
            ),
        )
    } else {
        None
    }
}

/// The entry of a top-level TypeScript or JavaScript statement, if it has
/// one.
pub open spec fn ts_entry(c: SyntaxNode, src: Seq<u8>) -> Option<EntryView> {
    let k = c.kind@;
    if k == "import_statement"@ {
        Some(entry_at(Section::Import, c, ts_import_text(c, src)))
    } else if k == "class_declaration"@ {
        ts_class(c, src, false)
    } else if k == "function_declaration"@ {
        ts_function(c, src, false)
    } else if k == "interface_declaration"@ {
        ts_interface(c, src, false)
    } else if k == "type_alias_declaration"@ {
        ts_type_alias(c, src, false)
    } else if k == "enum_declaration"@ {
        ts_enum(c, src, false)
    } else if k == "lexical_declaration"@ || k == "variable_declaration"@ {
        ts_lexical(c, src, false)
    } else if k == "expression_statement"@ {
        match ts_assignment(c, src) {
            Some(e) => Some(e),
            None => ts_dotted_call(c, src),
        }
    } else if k == "export_statement"@ {
        match first_exportable(c.children@, 0) {
            Some(j) => ts_exported(c.children@[j], src),
            None => ts_export_default(c, src),
        }
    } else {
        None
    }
}

/// The entries of a top-level statement (at most one).
pub open spec fn ts_entries(c: SyntaxNode, src: Seq<u8>) -> Seq<EntryView> {
    opt_entries(ts_entry(c, src))
}

// ---- tests and docs ----

/// A test suite: a statement that calls `describe`, `it` or `test`.
pub open spec fn ts_is_test(c: SyntaxNode, src: Seq<u8>) -> bool {
    c.kind@ == "expression_statement"@ && match first_child(c) {
        Some(x) => x.kind@ == "call_expression"@ && match field_child(x, "function"@) {
            Some(f) => {
                let t = text_of(f, src);
                t == "describe"@ || t == "it"@ || t == "test"@
            },
            None => false,
        },
        None => false,
    }
}

/// One line of a `/** .. */` comment without its comment marks and the
/// `*` that starts it, trimmed; none when nothing is left.
pub open spec fn doc_comment_line(line: Seq<char>) -> Option<Seq<char>> {
    let t = trim(line);
    match strip_prefix(t, "/**"@) {
        Some(inner) => {
            let body = match strip_suffix(inner, "*/"@) {
                Some(i2) => i2,
                None => inner,
            };
            let s = trim(trim_start_char(trim(body), '*'));
            if s.len() == 0 {
                None
            } else {
                Some(s)
            }
        },
        None => match strip_prefix(t, "*"@) {
            Some(inner) => {
                let s = trim(inner);
                if s.len() == 0 || s == "/"@ {
                    None
                } else {
                    Some(s)
                }
            },
            None => None,
        },
    }
}

/// The first line of `ls` that has doc text (see `doc_comment_line`).
pub open spec fn first_doc_text(ls: Seq<Seq<char>>) -> Option<Seq<char>>
    decreases ls.len(),
{
    if ls.len() == 0 {
        None
    } else {
        match doc_comment_line(ls[0]) {
            Some(s) => Some(s),
            None => first_doc_text(ls.drop_first()),
        }
    }
}

/// A `/**` comment.
pub open spec fn ts_doc_comment(c: SyntaxNode, src: Seq<u8>) -> bool {
    c.kind@ == "comment"@ && starts_with(text_of(c, src), "/**"@)
}

/// The first of the `/**` comments right before position `i` of `cs`
/// (position `i` itself when there are none).
pub open spec fn ts_doc_run(cs: Seq<SyntaxNode>, i: int, src: Seq<u8>) -> int
    decreases i,
{
    if i > 0 && i <= cs.len() && ts_doc_comment(cs[i - 1], src) {
        ts_doc_run(cs, i - 1, src)
    } else {
        i
    }
}

/// The doc line of the statement at position `i` of `cs`: the first text
/// line of the first of the `/**` comments right before it, cut to 120
/// characters.
pub open spec fn ts_doc_line(cs: Seq<SyntaxNode>, i: int, src: Seq<u8>) -> Option<Seq<char>> {
    let j = ts_doc_run(cs, i, src);
    if j == i {
        None
    } else {
        match first_doc_text(lines(text_of(cs[j], src))) {
            Some(d) => Some(truncated(d, 120)),
            None => None,
        }
    }
}

// ---- computing them ----

/// `export ` for a declaration inside an export statement.
fn export_prefix_exec(exported: bool) -> (r: Vec<char>)
    ensures
        r@ == export_prefix(exported),
{
    if exported {
        chars_of("export ")
    } else {
        Vec::new()
    }
}

/// A return or type annotation as written after a name.
fn ts_return_exec(o: Option<&SyntaxNode>, source: &[u8]) -> (r: Vec<char>)
    ensures
        r@ == ts_return(deref_opt(o), source@),
{
    match o {
        Some(n) => {
            let t = node_text(n, source);
            if has_prefix(t.as_slice(), chars_of(":").as_slice()) {
                t
            } else {
                let mut r = chars_of(": ");
                push_all(&mut r, t.as_slice());
                r
            }
        },
        None => Vec::new(),
    }
}

/// The first child of a node, if it has one.
fn first_of(n: &SyntaxNode) -> (r: Option<&SyntaxNode>)
    ensures
        deref_opt(r) == first_child(*n),
{
    if n.children.len() > 0 {
        Some(&n.children[0])
    } else {
        None
    }
}

/// The entry of an import statement.
fn ts_import(n: &SyntaxNode, source: &[u8]) -> (r: SkeletonEntry)
    requires
        rows_fit(*n),
    ensures
        r@ == entry_at(Section::Import, *n, ts_import_text(*n, source@)),
{
    let t = node_text(n, source);
    let s = match strip_prefix_exec(t.as_slice(), chars_of("import ").as_slice()) {
        Some(r) => r,
        None => t,
    };
    let c = trim_end_char_exec(s.as_slice(), ';');
    new_entry(Section::Import, n, c.as_slice())
}

/// Appends the lines of one class member.
fn push_ts_member(out: &mut Vec<String>, c: &SyntaxNode, source: &[u8])
    requires
        rows_fit(*c),
    ensures
        views(final(out)@) == views(old(out)@) + ts_member_lines(*c, source@),
{
    let ghost o0 = views(out@);
    let is_method = kind_is(c, "method_definition");
    if is_method || kind_is(c, "public_field_definition") {
        let mut line = text_or_exec(child_by_field(c, "name"), source, "_");
        let p = text_or_exec(child_by_field(c, "parameters"), source, "");
        proof {
            reveal_strlit("");
        }
        assert(p@ == text_or(field_child(*c, "parameters"@), source@, Seq::empty()));
        push_all(&mut line, p.as_slice());
        push_all(&mut line, ts_return_exec(child_by_field(c, "return_type"), source).as_slice());
        push_str(&mut line, " ");
        let lr = line_range(c.start_row + 1, c.end_row + 1);
        push_all(&mut line, chars_of(lr.as_str()).as_slice());
        push_text(out, line.as_slice());
        let ghost o1 = views(out@);
        if is_method {
            let ins = analyze_body(c, source, Language::TypeScript);
            proof {
                lemma_body_lines(ins, *c, source@, Language::TypeScript);
            }
            let ls = ins.format_lines();
            let ghost bl = views(ls@);
            let mut j: usize = 0;
            while j < ls.len()
                invariant
                    j <= ls@.len(),
                    bl == views(ls@),
                    views(out@) == o1 + indented(bl.take(j as int), "  "@),
                decreases ls@.len() - j,
            {
                let mut l = chars_of("  ");
                push_all(&mut l, chars_of(ls[j].as_str()).as_slice());
                push_text(out, l.as_slice());
                assert(indented(bl.take(j + 1), "  "@) =~= indented(bl.take(j as int), "  "@).push(
                    "  "@ + bl[j as int],
                ));
                j += 1;
            }
            assert(bl.take(j as int) =~= bl);
        }
    }
    assert(views(out@) =~= o0 + ts_member_lines(*c, source@));
}

/// The entry of a class declaration.
fn ts_class_exec(n: &SyntaxNode, source: &[u8], exported: bool) -> (r: Option<SkeletonEntry>)
    requires
        rows_fit(*n),
    ensures
        entry_opt(r) == ts_class(*n, source@, exported),
{
    proof {
        lemma_fits_below(*n);
    }
    let name = match child_by_field(n, "name") {
        Some(m) => node_text(m, source),
        None => {
            return None;
        },
    };
    let body = match child_by_field(n, "body") {
        Some(b) => b,
        None => {
            return None;
        },
    };
    proof {
        lemma_fits_below(*body);
    }
    let mut members: Vec<String> = Vec::new();
    let mut i: usize = 0;
    while i < body.children.len()
        invariant
            i <= body.children@.len(),
            forall|k: int| 0 <= k < body.children@.len() ==> #[trigger] rows_fit(body.children@[k]),
            views(members@) == ts_members(body.children@.take(i as int), source@),
        decreases body.children@.len() - i,
    {
        assert(body.children@.take(i + 1).drop_last() =~= body.children@.take(i as int));
        push_ts_member(&mut members, &body.children[i], source);
        i += 1;
    }
    assert(body.children@.take(i as int) =~= body.children@);
    let mut text = export_prefix_exec(exported);
    push_all(&mut text, name.as_slice());
    let mut e = new_entry(Section::Class, n, text.as_slice());
    e.children = members;
    Some(e)
}

/// The entry of a function declaration.
fn ts_function_exec(n: &SyntaxNode, source: &[u8], exported: bool) -> (r: Option<SkeletonEntry>)
    requires
        rows_fit(*n),
    ensures
        entry_opt(r) == ts_function(*n, source@, exported),
{
    match child_by_field(n, "name") {
        Some(m) => {
            let mut text = export_prefix_exec(exported);
            push_all(&mut text, node_text(m, source).as_slice());
            push_all(&mut text, text_or_exec(child_by_field(n, "parameters"), source, "()").as_slice());
            push_all(&mut text, ts_return_exec(child_by_field(n, "return_type"), source).as_slice());
            Some(new_entry(Section::Function, n, text.as_slice()))
        },
        None => None,
    }
}

/// `s` without any run of `,` and `;` at its end.
fn trim_end_punct_exec(s: &[char]) -> (r: Vec<char>)
    ensures
        r@ == trim_end_punct(s@),
{
    let mut b: usize = s.len();
    assert(s@.take(b as int) =~= s@);
    while b > 0 && (s[b - 1] == ',' || s[b - 1] == ';')
        invariant
            b <= s.len(),
            trim_end_punct(s@) == trim_end_punct(s@.take(b as int)),
        decreases b,
    {
        assert(s@.take(b as int).drop_last() =~= s@.take(b - 1));
        b -= 1;
    }
    crate::text::copy_range(s, 0, b)
}

/// The entry of an interface declaration.
fn ts_interface_exec(n: &SyntaxNode, source: &[u8], exported: bool) -> (r: Option<SkeletonEntry>)
    requires
        rows_fit(*n),
    ensures
        entry_opt(r) == ts_interface(*n, source@, exported),
{
    let name = match child_by_field(n, "name") {
        Some(m) => node_text(m, source),
        None => {
            return None;
        },
    };
    let body = match child_by_field(n, "body") {
        Some(b) => b,
        None => {
            return None;
        },
    };
    let mut fields: Vec<String> = Vec::new();
    let mut i: usize = 0;
    while i < body.children.len()
        invariant
            i <= body.children@.len(),
            views(fields@) == ts_signatures(body.children@.take(i as int), source@),
        decreases body.children@.len() - i,
    {
        assert(body.children@.take(i + 1).drop_last() =~= body.children@.take(i as int));
        let c = &body.children[i];
        if kind_is(c, "property_signature") || kind_is(c, "method_signature") {
            let t = trim_end_punct_exec(node_text(c, source).as_slice());
            push_text(&mut fields, t.as_slice());
        }
        i += 1;
    }
    assert(body.children@.take(i as int) =~= body.children@);
    let mut text = export_prefix_exec(exported);
    push_str(&mut text, "interface ");
    push_all(&mut text, name.as_slice());
    let mut e = new_entry(Section::Type, n, text.as_slice());
    e.children = fields;
    Some(e)
}

/// ` = ` and the text of an optional value cut to `max` characters.
fn value_text_exec(o: Option<&SyntaxNode>, source: &[u8], max: usize) -> (r: Vec<char>)
    ensures
        r@ == value_text(deref_opt(o), source@, max as nat),
{
    match o {
        Some(v) => {
            let mut r = chars_of(" = ");
            let s = string_of(node_text(v, source).as_slice());
            let c = truncate(s.as_str(), max);
            push_all(&mut r, chars_of(c.as_str()).as_slice());
            r
        },
        None => Vec::new(),
    }
}

/// The entry of a type alias.
fn ts_type_alias_exec(n: &SyntaxNode, source: &[u8], exported: bool) -> (r: Option<SkeletonEntry>)
    requires
        rows_fit(*n),
    ensures
        entry_opt(r) == ts_type_alias(*n, source@, exported),
{
    match child_by_field(n, "name") {
        Some(m) => {
            let mut text = export_prefix_exec(exported);
            push_str(&mut text, "type ");
            push_all(&mut text, node_text(m, source).as_slice());
            push_all(&mut text, value_text_exec(child_by_field(n, "value"), source, 80).as_slice());
            Some(new_entry(Section::Type, n, text.as_slice()))
        },
        None => None,
    }
}

/// The entry of an enum.
fn ts_enum_exec(n: &SyntaxNode, source: &[u8], exported: bool) -> (r: Option<SkeletonEntry>)
    requires
        rows_fit(*n),
    ensures
        entry_opt(r) == ts_enum(*n, source@, exported),
{
    match child_by_field(n, "name") {
        Some(m) => {
            let mut text = export_prefix_exec(exported);
            push_str(&mut text, "enum ");
            push_all(&mut text, node_text(m, source).as_slice());
            Some(new_entry(Section::Type, n, text.as_slice()))
        },
        None => None,
    }
}

/// The entry of a `const`, `let` or `var` declaration.
fn ts_lexical_exec(n: &SyntaxNode, source: &[u8], exported: bool) -> (r: Option<SkeletonEntry>)
    requires
        rows_fit(*n),
    ensures
        entry_opt(r) == ts_lexical(*n, source@, exported),
{
    let kw = text_or_exec(first_of(n), source, "");
    proof {
        reveal_strlit("");
    }
    assert(kw@ == text_or(first_child(*n), source@, Seq::empty()));
    match find_child(n, "variable_declarator") {
        Some(d) => match child_by_field(d, "name") {
            Some(m) => {
                let mut decl = node_text(m, source);
                push_all(&mut decl, ts_return_exec(child_by_field(d, "type"), source).as_slice());
                push_all(&mut decl, value_text_exec(child_by_field(d, "value"), source, 60).as_slice());
                let mut text = export_prefix_exec(exported);
                if chars_eq(kw.as_slice(), chars_of("const").as_slice()) {
                    push_all(&mut text, decl.as_slice());
                    Some(new_entry(Section::Constant, n, text.as_slice()))
                } else {
                    push_all(&mut text, kw.as_slice());
                    push_str(&mut text, " ");
                    push_all(&mut text, decl.as_slice());
                    Some(new_entry(Section::Expression, n, text.as_slice()))
                }
            },
            None => None,
        },
        None => None,
    }
}

/// Whether a kind is one an export statement exports.
fn ts_exportable_exec(n: &SyntaxNode) -> (b: bool)
    ensures
        b == ts_exportable(n.kind@),
{
    kind_is(n, "class_declaration") || kind_is(n, "function_declaration") || kind_is(
        n,
        "interface_declaration",
    ) || kind_is(n, "type_alias_declaration") || kind_is(n, "lexical_declaration") || kind_is(
        n,
        "enum_declaration",
    )
}

/// The entry of an exported declaration.
fn ts_exported_exec(d: &SyntaxNode, source: &[u8]) -> (r: Option<SkeletonEntry>)
    requires
        rows_fit(*d),
    ensures
        entry_opt(r) == ts_exported(*d, source@),
{
    if kind_is(d, "class_declaration") {
        ts_class_exec(d, source, true)
    } else if kind_is(d, "function_declaration") {
        ts_function_exec(d, source, true)
    } else if kind_is(d, "interface_declaration") {
        ts_interface_exec(d, source, true)
    } else if kind_is(d, "type_alias_declaration") {
        ts_type_alias_exec(d, source, true)
    } else if kind_is(d, "lexical_declaration") {
        ts_lexical_exec(d, source, true)
    } else {
        ts_enum_exec(d, source, true)
    }
}

/// Whether a receiver is one whose calls are noise.
fn ts_noisy_exec(r: &[char]) -> (b: bool)
    ensures
        b == ts_noisy(r@),
{
    let s = string_of(r);
    let t = s.as_str();
    str_is(t, "console") || str_is(t, "process") || str_is(t, "logging") || str_is(t, "log")
        || str_is(t, "logger") || str_is(t, "Math") || str_is(t, "Object") || str_is(t, "Array")
        || str_is(t, "JSON")
}

/// A text trimmed and cut to 80 characters.
fn cut80(t: &[char]) -> (r: Vec<char>)
    ensures
        r@ == truncated(trim(t@), 80),
{
    let s = string_of(trimmed(t).as_slice());
    let c = truncate(s.as_str(), 80);
    chars_of(c.as_str())
}

/// A statement that is an assignment.
fn ts_assignment_exec(n: &SyntaxNode, source: &[u8]) -> (r: Option<SkeletonEntry>)
    requires
        rows_fit(*n),
    ensures
        entry_opt(r) == ts_assignment(*n, source@),
{
    match first_of(n) {
        Some(x) => if kind_is(x, "assignment_expression") {
            let t = cut80(node_text(x, source).as_slice());
            Some(new_entry(Section::Expression, n, t.as_slice()))
        } else {
            None
        },
        None => None,
    }
}

/// A statement that is a dotted call.
fn ts_dotted_call_exec(n: &SyntaxNode, source: &[u8]) -> (r: Option<SkeletonEntry>)
    requires
        rows_fit(*n),
    ensures
        entry_opt(r) == ts_dotted_call(*n, source@),
{
    let x = match first_of(n) {
        Some(x) => x,
        None => {
            return None;
        },
    };
    if !kind_is(x, "call_expression") {
        return None;
    }
    let f = match child_by_field(x, "function") {
        Some(f) => f,
        None => {
            return None;
        },
    };
    if !kind_is(f, "member_expression") {
        return None;
    }
    let recv = text_or_exec(child_by_field(f, "object"), source, "");
    proof {
        reveal_strlit("");
    }
    assert(recv@ == text_or(field_child(*f, "object"@), source@, Seq::empty()));
    if ts_noisy_exec(recv.as_slice()) {
        return None;
    }
    let t = cut80(node_text(x, source).as_slice());
    Some(new_entry(Section::Expression, n, t.as_slice()))
}

/// An `export default ..` statement.
fn ts_export_default_exec(n: &SyntaxNode, source: &[u8]) -> (r: Option<SkeletonEntry>)
    requires
        rows_fit(*n),
    ensures
        entry_opt(r) == ts_export_default(*n, source@),
{
    let dflt = chars_of("default");
    let mut found = false;
    let mut i: usize = 0;
    while i < n.children.len() && !found
        invariant
            i <= n.children@.len(),
            dflt@ == "default"@,
            found ==> has_default(n.children@, source@),
            !found ==> forall|k: int| 0 <= k < i ==> text_of(#[trigger] n.children@[k], source@) != "default"@,
        decreases n.children@.len() - i, if found { 0int } else { 1int },
    {
        let t = node_text(&n.children[i], source);
        if chars_eq(t.as_slice(), dflt.as_slice()) {
            found = true;
        } else {
            i += 1;
        }
    }
    if !found {
        return None;
    }
    let t = trim_end_char_exec(trimmed(node_text(n, source).as_slice()).as_slice(), ';');
    let s = string_of(t.as_slice());
    let c = truncate(s.as_str(), 80);
    Some(new_entry(Section::Expression, n, chars_of(c.as_str()).as_slice()))
}

/// The entry of a top-level TypeScript or JavaScript statement.
pub fn ts_entry_exec(c: &SyntaxNode, source: &[u8]) -> (r: Option<SkeletonEntry>)
    requires
        rows_fit(*c),
    ensures
        entry_opt(r) == ts_entry(*c, source@),
{
    proof {
        lemma_fits_below(*c);
    }
    if kind_is(c, "import_statement") {
        Some(ts_import(c, source))
    } else if kind_is(c, "class_declaration") {
        ts_class_exec(c, source, false)
    } else if kind_is(c, "function_declaration") {
        ts_function_exec(c, source, false)
    } else if kind_is(c, "interface_declaration") {
        ts_interface_exec(c, source, false)
    } else if kind_is(c, "type_alias_declaration") {
        ts_type_alias_exec(c, source, false)
    } else if kind_is(c, "enum_declaration") {
        ts_enum_exec(c, source, false)
    } else if kind_is(c, "lexical_declaration") || kind_is(c, "variable_declaration") {
        ts_lexical_exec(c, source, false)
    } else if kind_is(c, "expression_statement") {
        match ts_assignment_exec(c, source) {
            Some(e) => Some(e),
            None => ts_dotted_call_exec(c, source),
        }
    } else if kind_is(c, "export_statement") {
        let mut i: usize = 0;
        while i < c.children.len() && !ts_exportable_exec(&c.children[i])
            invariant
                i <= c.children@.len(),
                first_exportable(c.children@, 0) == first_exportable(c.children@, i as int),
            decreases c.children@.len() - i,
        {
            i += 1;
        }
        if i < c.children.len() {
            assert(rows_fit(c.children@[i as int]));
            ts_exported_exec(&c.children[i], source)
        } else {
            ts_export_default_exec(c, source)
        }
    } else {
        None
    }
}

/// Whether a top-level statement is a test suite.
pub fn ts_is_test_exec(c: &SyntaxNode, source: &[u8]) -> (b: bool)
    ensures
        b == ts_is_test(*c, source@),
{
    if !kind_is(c, "expression_statement") {
        return false;
    }
    match first_of(c) {
        Some(x) => {
            if !kind_is(x, "call_expression") {
                return false;
            }
            match child_by_field(x, "function") {
                Some(f) => {
                    let t = string_of(node_text(f, source).as_slice());
                    str_is(t.as_str(), "describe") || str_is(t.as_str(), "it") || str_is(
                        t.as_str(),
                        "test",
                    )
                },
                None => false,
            }
        },
        None => false,
    }
}

/// One line of a `/** .. */` comment as doc text (see `doc_comment_line`).
pub fn doc_comment_line_exec(line: &[char]) -> (r: Option<Vec<char>>)
    ensures
        match r {
            Some(s) => doc_comment_line(line@) == Some(s@),
            None => doc_comment_line(line@) is None,
        },
{
    let t = trimmed(line);
    match strip_prefix_exec(t.as_slice(), chars_of("/**").as_slice()) {
        Some(inner) => {
            let body = match strip_suffix_exec(inner.as_slice(), chars_of("*/").as_slice()) {
                Some(i2) => i2,
                None => inner,
            };
            let s = trimmed(trim_start_char_exec(trimmed(body.as_slice()).as_slice(), '*').as_slice());
            if s.len() == 0 {
                None
            } else {
                Some(s)
            }
        },
        None => match strip_prefix_exec(t.as_slice(), chars_of("*").as_slice()) {
            Some(inner) => {
                let s = trimmed(inner.as_slice());
                if s.len() == 0 || chars_eq(s.as_slice(), chars_of("/").as_slice()) {
                    None
                } else {
                    Some(s)
                }
            },
            None => None,
        },
    }
}

/// The first doc text line of a comment's text.
pub fn first_doc_text_exec(text: &[char]) -> (r: Option<Vec<char>>)
    ensures
        match r {
            Some(s) => first_doc_text(lines(text@)) == Some(s@),
            None => first_doc_text(lines(text@)) is None,
        },
{
    let ls = lines_of(text);
    let ghost all = lines(text@);
    let mut i: usize = 0;
    assert(all.skip(0) =~= all);
    while i < ls.len()
        invariant
            i <= ls@.len(),
            ls@.len() == all.len(),
            forall|k: int| 0 <= k < ls@.len() ==> #[trigger] ls@[k]@ == all[k],
            all == lines(text@),
            first_doc_text(all) == first_doc_text(all.skip(i as int)),
        decreases ls@.len() - i,
    {
        assert(all.skip(i as int)[0] == all[i as int]);
        match doc_comment_line_exec(ls[i].as_slice()) {
            Some(s) => {
                assert(doc_comment_line(all.skip(i as int)[0]) == Some(s@));
                assert(first_doc_text(all.skip(i as int)) == Some(s@));
                return Some(s);
            },
            None => {},
        }
        assert(all.skip(i as int).drop_first() =~= all.skip(i + 1));
        i += 1;
    }
    assert(all.skip(i as int).len() == 0);
    None
}

/// The doc line of the statement at position `i` of `cs`.
pub fn ts_doc_line_exec(cs: &[SyntaxNode], i: usize, source: &[u8]) -> (r: Option<Vec<char>>)
    requires
        i < cs.len(),
    ensures
        match r {
            Some(d) => ts_doc_line(cs@, i as int, source@) == Some(d@),
            None => ts_doc_line(cs@, i as int, source@) is None,
        },
{
    let open = chars_of("/**");
    let mut j: usize = i;
    while j > 0 && kind_is(&cs[j - 1], "comment") && has_prefix(
        node_text(&cs[j - 1], source).as_slice(),
        open.as_slice(),
    )
        invariant
            j <= i < cs.len(),
            open@ == "/**"@,
            ts_doc_run(cs@, i as int, source@) == ts_doc_run(cs@, j as int, source@),
        decreases j,
    {
        j -= 1;
    }
    if j == i {
        return None;
    }
    match first_doc_text_exec(node_text(&cs[j], source).as_slice()) {
        Some(d) => {
            let s = string_of(d.as_slice());
            let c = truncate(s.as_str(), 120);
            Some(chars_of(c.as_str()))
        },
        None => None,
    }
}

} // verus!
