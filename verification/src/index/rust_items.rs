//! Rust items in a skeleton: their test attributes, their visibility, the
//! attributes worth keeping, a function's signature, the entry each
//! top-level item gives, and the first line of its doc comments.
use vstd::prelude::*;

use crate::index::api::push_text;
use crate::index::body::{analyze_body, body_lines, lemma_body_lines};
use crate::index::java::{node_range, node_range_exec, prefixed, prefixed_exec};
use crate::index::outline::{entry_at, indented, new_entry};
use crate::index::skeleton::{EntryView, Section, SkeletonEntry};
use crate::index::syntax::{
    child_by_field, field_child, find_child, kind_child, kind_is, lemma_fits_below, node_text, rows_fit, text_of,
    SyntaxNode,
};
use crate::index::{truncate, truncated, Language, FIELD_TRUNCATE_THRESHOLD};
use crate::deps::extract::without_prefix;
use crate::text::{strip_prefix, strip_prefix_exec, trim, trim_end_char, trim_end_char_exec, trimmed};
use crate::text::{
    chars_of, contains, ends_with, has_prefix, has_substring, has_suffix, push_all, push_str,
    opt_view, starts_with, string_of, views,
};

verus! {

/// An attribute text that marks test code: `#[test]`, `#[cfg(test)]`, or
/// one that ends in `::test]` (as `#[tokio::test]` does).
pub open spec fn is_test_attr_text(t: Seq<char>) -> bool {
    t == "#[test]"@ || t == "#[cfg(test)]"@ || ends_with(t, "::test]"@)
}

/// Some attribute of `attrs` marks test code.
pub open spec fn any_test_attr(attrs: Seq<SyntaxNode>, src: Seq<u8>) -> bool {
    exists|i: int| 0 <= i < attrs.len() && is_test_attr_text(#[trigger] text_of(attrs[i], src))
}

/// Whether one of the attributes `attrs` marks the item as test code.
pub fn has_test_attr(attrs: &[SyntaxNode], source: &[u8]) -> (b: bool)
    ensures
        b == any_test_attr(attrs@, source@),
{
    let mut i: usize = 0;
    while i < attrs.len()
        invariant
            i <= attrs@.len(),
            forall|k: int| 0 <= k < i ==> !is_test_attr_text(#[trigger] text_of(attrs@[k], source@)),
        decreases attrs@.len() - i,
    {
        let t = node_text(&attrs[i], source);
        if str_chars_is(t.as_slice(), "#[test]") || str_chars_is(t.as_slice(), "#[cfg(test)]")
            || has_suffix(t.as_slice(), chars_of("::test]").as_slice()) {
            assert(is_test_attr_text(text_of(attrs@[i as int], source@)));
            return true;
        }
        i += 1;
    }
    false
}

/// Whether the characters `t` spell `lit`.
fn str_chars_is(t: &[char], lit: &str) -> (b: bool)
    ensures
        b == (t@ == lit@),
{
    let l = chars_of(lit);
    crate::text::chars_eq(t, l.as_slice())
}

/// The visibility of an item: the text of its `visibility_modifier` child,
/// or nothing.
pub open spec fn visibility_of(n: SyntaxNode, src: Seq<u8>) -> Seq<char> {
    match kind_child(n, "visibility_modifier"@) {
        Some(v) => text_of(v, src),
        None => Seq::empty(),
    }
}

/// The visibility written before an item (`pub`, `pub(crate)`, ...), or an
/// empty string.
pub fn vis_prefix(node: &SyntaxNode, source: &[u8]) -> (r: String)
    ensures
        r@ == visibility_of(*node, source@),
{
    match find_child(node, "visibility_modifier") {
        Some(v) => string_of(node_text(v, source).as_slice()),
        None => String::new(),
    }
}

/// An attribute worth showing with its item: one that derives or
/// configures.
pub open spec fn is_relevant_attr(t: Seq<char>) -> bool {
    contains(t, "derive"@) || contains(t, "cfg"@)
}

/// The texts of the relevant attributes among `attrs`, in order.
pub open spec fn relevant_texts(attrs: Seq<SyntaxNode>, src: Seq<u8>) -> Seq<Seq<char>>
    decreases attrs.len(),
{
    if attrs.len() == 0 {
        Seq::empty()
    } else {
        let t = text_of(attrs.last(), src);
        relevant_texts(attrs.drop_last(), src) + if is_relevant_attr(t) {
            seq![t]
        } else {
            Seq::empty()
        }
    }
}

/// The texts of the attributes among `attrs` that derive or configure.
pub fn relevant_attr_texts(attrs: &[SyntaxNode], source: &[u8]) -> (r: Vec<String>)
    ensures
        views(r@) == relevant_texts(attrs@, source@),
{
    let mut r: Vec<String> = Vec::new();
    let mut i: usize = 0;
    let derive = chars_of("derive");
    let cfg = chars_of("cfg");
    while i < attrs.len()
        invariant
            i <= attrs@.len(),
            derive@ == "derive"@,
            cfg@ == "cfg"@,
            views(r@) == relevant_texts(attrs@.take(i as int), source@),
        decreases attrs@.len() - i,
    {
        assert(attrs@.take(i + 1).drop_last() =~= attrs@.take(i as int));
        let t = node_text(&attrs[i], source);
        let ghost r0 = views(r@);
        if has_substring(t.as_slice(), derive.as_slice()) || has_substring(t.as_slice(), cfg.as_slice()) {
            r.push(string_of(t.as_slice()));
            assert(views(r@) =~= r0 + seq![t@]);
        } else {
            assert(views(r@) =~= r0 + Seq::<Seq<char>>::empty());
        }
        i += 1;
    }
    assert(attrs@.take(i as int) =~= attrs@);
    r
}

/// The return part of a signature: the `return_type` field with ` -> `
/// before it (a single space where the text has its own arrow), or
/// nothing.
pub open spec fn return_part(n: SyntaxNode, src: Seq<u8>) -> Seq<char> {
    match field_child(n, "return_type"@) {
        Some(r) => {
            let t = text_of(r, src);
            if starts_with(t, "->"@) {
                " "@ + t
            } else {
                " -> "@ + t
            }
        },
        None => Seq::empty(),
    }
}

/// The signature of a function node: its name, its `parameters` (or `()`)
/// and its return part; none without a name.
pub open spec fn signature_of(n: SyntaxNode, src: Seq<u8>) -> Option<Seq<char>> {
    match field_child(n, "name"@) {
        Some(name) => Some(
            text_of(name, src) + match kind_child(n, "parameters"@) {
                Some(p) => text_of(p, src),
                None => "()"@,
            } + return_part(n, src),
        ),
        None => None,
    }
}

/// The signature `name(params) -> ret` of a function item, or `None` when
/// it has no name.
pub fn fn_signature(node: &SyntaxNode, source: &[u8]) -> (r: Option<String>)
    ensures
        opt_view(r) == signature_of(*node, source@),
{
    let name = match child_by_field(node, "name") {
        Some(n) => node_text(n, source),
        None => {
            return None;
        },
    };
    let mut out = name;
    match find_child(node, "parameters") {
        Some(p) => {
            let pt = node_text(p, source);
            push_all(&mut out, pt.as_slice());
        },
        None => push_str(&mut out, "()"),
    }
    match child_by_field(node, "return_type") {
        Some(rt) => {
            let t = node_text(rt, source);
            if has_prefix(t.as_slice(), chars_of("->").as_slice()) {
                push_str(&mut out, " ");
            } else {
                push_str(&mut out, " -> ");
            }
            push_all(&mut out, t.as_slice());
        },
        None => {},
    }
    Some(string_of(out.as_slice()))
}


// ---- the skeleton of Rust items ----

/// A Rust attribute node (`#[...]`).
pub open spec fn is_attr_node(c: SyntaxNode) -> bool {
    c.kind@ == "attribute_item"@
}

/// Where the run of attribute nodes that ends right before position `i`
/// of `cs` starts.
pub open spec fn attr_run(cs: Seq<SyntaxNode>, i: int) -> int
    decreases i,
{
    if i > 0 && i <= cs.len() && is_attr_node(cs[i - 1]) {
        attr_run(cs, i - 1)
    } else {
        i
    }
}

pub proof fn lemma_attr_run(cs: Seq<SyntaxNode>, i: int)
    requires
        0 <= i <= cs.len(),
    ensures
        0 <= attr_run(cs, i) <= i,
    decreases i,
{
    if i > 0 && is_attr_node(cs[i - 1]) {
        lemma_attr_run(cs, i - 1);
    }
}

/// The attributes right before position `i` of `cs`, in order.
pub open spec fn preceding_attrs(cs: Seq<SyntaxNode>, i: int) -> Seq<SyntaxNode> {
    cs.subrange(attr_run(cs, i), i)
}

/// The item at position `i` of `cs` is test code: one of its attributes
/// marks it (`#[test]`, `#[cfg(test)]`, ...).
pub open spec fn rust_is_test(cs: Seq<SyntaxNode>, i: int, src: Seq<u8>) -> bool {
    any_test_attr(preceding_attrs(cs, i), src)
}

/// A Rust doc comment: a line comment starting with `///`.
pub open spec fn rust_doc_comment(c: SyntaxNode, src: Seq<u8>) -> bool {
    c.kind@ == "line_comment"@ && starts_with(text_of(c, src), "///"@)
}

/// A Rust module doc comment: a line comment starting with `//!`.
pub open spec fn rust_module_doc(c: SyntaxNode, src: Seq<u8>) -> bool {
    c.kind@ == "line_comment"@ && starts_with(text_of(c, src), "//!"@)
}

/// The first of the doc comments right before position `i` of `cs`, with
/// attributes between them passed over; `acc` when there are none.
pub open spec fn rust_doc_top(cs: Seq<SyntaxNode>, i: int, src: Seq<u8>, acc: Option<int>) -> Option<int>
    decreases i,
{
    if i <= 0 || i > cs.len() {
        acc
    } else if is_attr_node(cs[i - 1]) {
        rust_doc_top(cs, i - 1, src, acc)
    } else if rust_doc_comment(cs[i - 1], src) {
        rust_doc_top(cs, i - 1, src, Some(i - 1))
    } else {
        acc
    }
}

/// The doc text of a `///` comment: what follows the `///`, trimmed, cut
/// to 120 characters; none when that is empty.
pub open spec fn rust_doc_text(t: Seq<char>) -> Option<Seq<char>> {
    match strip_prefix(t, "///"@) {
        Some(r) => {
            let d = trim(r);
            if d.len() == 0 {
                None
            } else {
                Some(truncated(d, 120))
            }
        },
        None => None,
    }
}

/// The doc line of the item at position `i` of `cs`: the text of the first
/// of its doc comments.
pub open spec fn rust_doc_line(cs: Seq<SyntaxNode>, i: int, src: Seq<u8>) -> Option<Seq<char>> {
    match rust_doc_top(cs, i, src, None) {
        Some(j) => if 0 <= j < cs.len() {
            rust_doc_text(text_of(cs[j], src))
        } else {
            None
        },
        None => None,
    }
}

/// The text of a `use` declaration: without `use `, the `;` and the
/// spaces around.
pub open spec fn use_text(t: Seq<char>) -> Seq<char> {
    trim(trim_end_char(without_prefix(t, "use "@), ';'))
}

/// `kw` and a space before the name of `c`, after its visibility.
pub open spec fn named_text(c: SyntaxNode, src: Seq<u8>, kw: Seq<char>) -> Option<Seq<char>> {
    match field_child(c, "name"@) {
        Some(m) => Some(prefixed(visibility_of(c, src), kw + text_of(m, src))),
        None => None,
    }
}

/// The text of a `const` or `static` item: its visibility, `kw`, its name,
/// `: ` and its type.
pub open spec fn binding_text(c: SyntaxNode, src: Seq<u8>, kw: Seq<char>) -> Option<Seq<char>> {
    match (field_child(c, "name"@), field_child(c, "type"@)) {
        (Some(m), Some(t)) => Some(prefixed(visibility_of(c, src), kw + text_of(m, src) + ": "@ + text_of(t, src))),
        _ => None,
    }
}

/// The text of an `impl` block: `Trait for Type`, or the type alone.
pub open spec fn impl_text(c: SyntaxNode, src: Seq<u8>) -> Option<Seq<char>> {
    match field_child(c, "type"@) {
        Some(ty) => Some(
            match field_child(c, "trait"@) {
                Some(tr) => text_of(tr, src) + " for "@ + text_of(ty, src),
                None => text_of(ty, src),
            },
        ),
        None => None,
    }
}

/// The section and text of a top-level Rust item, if it shows in the
/// skeleton.
pub open spec fn rust_item(c: SyntaxNode, src: Seq<u8>) -> Option<(Section, Seq<char>)> {
    let k = c.kind@;
    if k == "use_declaration"@ {
        Some((Section::Import, use_text(text_of(c, src))))
    } else if k == "const_item"@ {
        match binding_text(c, src, ""@) { Some(t) => Some((Section::Constant, t)), None => None }
    } else if k == "static_item"@ {
        match binding_text(c, src, "static "@) { Some(t) => Some((Section::Constant, t)), None => None }
    } else if k == "struct_item"@ {
        match named_text(c, src, "struct "@) { Some(t) => Some((Section::Type, t)), None => None }
    } else if k == "enum_item"@ {
        match named_text(c, src, "enum "@) { Some(t) => Some((Section::Type, t)), None => None }
    } else if k == "union_item"@ {
        match named_text(c, src, "union "@) { Some(t) => Some((Section::Type, t)), None => None }
    } else if k == "type_item"@ {
        match named_text(c, src, "type "@) { Some(t) => Some((Section::Type, t)), None => None }
    } else if k == "trait_item"@ {
        match named_text(c, src, ""@) { Some(t) => Some((Section::Trait, t)), None => None }
    } else if k == "impl_item"@ {
        match impl_text(c, src) { Some(t) => Some((Section::Impl, t)), None => None }
    } else if k == "function_item"@ {
        match signature_of(c, src) {
            Some(sig) => Some((Section::Function, prefixed(visibility_of(c, src), sig))),
            None => None,
        }
    } else if k == "mod_item"@ {
        match named_text(c, src, ""@) { Some(t) => Some((Section::Module, t)), None => None }
    } else if k == "macro_definition"@ {
        match field_child(c, "name"@) { Some(m) => Some((Section::Macro, text_of(m, src) + "!"@)), None => None }
    } else {
        None
    }
}

/// The member lines after `acc` for one member `c` of a struct or impl
/// body: a method gives its signature (after its visibility) with its line
/// range and the summary of its body; a field gives its text while fewer
/// than the limit of lines are listed.
pub open spec fn rust_member_step(acc: Seq<Seq<char>>, c: SyntaxNode, src: Seq<u8>) -> Seq<Seq<char>> {
    if c.kind@ == "function_item"@ {
        match signature_of(c, src) {
            Some(sig) => acc.push(prefixed(visibility_of(c, src), sig) + " "@ + node_range(c)) + indented(
                body_lines(c, src, Language::Rust),
                "  "@,
            ),
            None => acc,
        }
    } else if c.kind@ == "field_declaration"@ {
        if acc.len() < FIELD_TRUNCATE_THRESHOLD {
            acc.push(trim(text_of(c, src)))
        } else {
            acc
        }
    } else {
        acc
    }
}

/// The member lines of the members `cs`, after `acc`.
pub open spec fn rust_fold(acc: Seq<Seq<char>>, cs: Seq<SyntaxNode>, src: Seq<u8>) -> Seq<Seq<char>>
    decreases cs.len(),
{
    if cs.len() == 0 {
        acc
    } else {
        rust_member_step(rust_fold(acc, cs.drop_last(), src), cs.last(), src)
    }
}

/// The lines under a struct (its fields) or an impl block (its methods).
pub open spec fn rust_children(c: SyntaxNode, src: Seq<u8>) -> Seq<Seq<char>> {
    if c.kind@ == "struct_item"@ || c.kind@ == "impl_item"@ {
        match field_child(c, "body"@) {
            Some(b) => rust_fold(Seq::empty(), b.children@, src),
            None => Seq::empty(),
        }
    } else {
        Seq::empty()
    }
}

/// The entries of the top-level item at position `i` of `cs`: its entry,
/// with the attributes before it that derive or configure and the lines
/// of its members.
pub open spec fn rust_entries(cs: Seq<SyntaxNode>, i: int, src: Seq<u8>) -> Seq<EntryView> {
    match rust_item(cs[i], src) {
        Some((sec, t)) => seq![
            EntryView {
                attrs: relevant_texts(preceding_attrs(cs, i), src),
                children: rust_children(cs[i], src),
                ..entry_at(sec, cs[i], t)
            },
        ],
        None => Seq::empty(),
    }
}

// ---- computing them ----

/// Where the run of attributes before position `i` starts.
fn attr_run_exec(cs: &[SyntaxNode], i: usize) -> (r: usize)
    requires
        i <= cs.len(),
    ensures
        r == attr_run(cs@, i as int),
{
    let mut j: usize = i;
    while j > 0 && kind_is(&cs[j - 1], "attribute_item")
        invariant
            j <= i <= cs.len(),
            attr_run(cs@, i as int) == attr_run(cs@, j as int),
        decreases j,
    {
        j -= 1;
    }
    j
}

/// Whether one of the attributes `cs[a..b]` marks test code.
fn test_attr_in(cs: &[SyntaxNode], a: usize, b: usize, source: &[u8]) -> (r: bool)
    requires
        a <= b <= cs.len(),
    ensures
        r == any_test_attr(cs@.subrange(a as int, b as int), source@),
{
    let ghost s = cs@.subrange(a as int, b as int);
    let mut k: usize = a;
    while k < b
        invariant
            a <= k <= b <= cs.len(),
            s == cs@.subrange(a as int, b as int),
            forall|j: int| 0 <= j < k - a ==> !is_test_attr_text(#[trigger] text_of(s[j], source@)),
        decreases b - k,
    {
        let t = node_text(&cs[k], source);
        if str_chars_is(t.as_slice(), "#[test]") || str_chars_is(t.as_slice(), "#[cfg(test)]")
            || has_suffix(t.as_slice(), chars_of("::test]").as_slice()) {
            assert(s[k - a] == cs@[k as int]);
            assert(is_test_attr_text(text_of(s[k - a], source@)));
            return true;
        }
        assert(s[k - a] == cs@[k as int]);
        k += 1;
    }
    false
}

/// The texts of the attributes `cs[a..b]` that derive or configure.
fn relevant_attrs_in(cs: &[SyntaxNode], a: usize, b: usize, source: &[u8]) -> (r: Vec<String>)
    requires
        a <= b <= cs.len(),
    ensures
        views(r@) == relevant_texts(cs@.subrange(a as int, b as int), source@),
{
    let mut r: Vec<String> = Vec::new();
    let mut k: usize = a;
    let derive = chars_of("derive");
    let cfg = chars_of("cfg");
    assert(cs@.subrange(a as int, a as int) =~= Seq::<SyntaxNode>::empty());
    while k < b
        invariant
            a <= k <= b <= cs.len(),
            derive@ == "derive"@,
            cfg@ == "cfg"@,
            views(r@) == relevant_texts(cs@.subrange(a as int, k as int), source@),
        decreases b - k,
    {
        assert(cs@.subrange(a as int, k + 1).drop_last() =~= cs@.subrange(a as int, k as int));
        assert(cs@.subrange(a as int, k + 1).last() == cs@[k as int]);
        let t = node_text(&cs[k], source);
        let ghost r0 = views(r@);
        if has_substring(t.as_slice(), derive.as_slice()) || has_substring(t.as_slice(), cfg.as_slice()) {
            r.push(string_of(t.as_slice()));
            assert(views(r@) =~= r0 + seq![t@]);
        } else {
            assert(views(r@) =~= r0 + Seq::<Seq<char>>::empty());
        }
        k += 1;
    }
    r
}

/// Whether the item at position `i` is test code.
pub fn rust_is_test_exec(cs: &[SyntaxNode], i: usize, source: &[u8]) -> (b: bool)
    requires
        i <= cs.len(),
    ensures
        b == rust_is_test(cs@, i as int, source@),
{
    let a = attr_run_exec(cs, i);
    proof {
        lemma_attr_run(cs@, i as int);
    }
    test_attr_in(cs, a, i, source)
}

/// Whether a node is a `///` doc comment.
pub fn rust_doc_comment_exec(c: &SyntaxNode, source: &[u8]) -> (b: bool)
    ensures
        b == rust_doc_comment(*c, source@),
{
    kind_is(c, "line_comment") && has_prefix(node_text(c, source).as_slice(), chars_of("///").as_slice())
}

/// Whether a node is a `//!` module doc comment.
pub fn rust_module_doc_exec(c: &SyntaxNode, source: &[u8]) -> (b: bool)
    ensures
        b == rust_module_doc(*c, source@),
{
    kind_is(c, "line_comment") && has_prefix(node_text(c, source).as_slice(), chars_of("//!").as_slice())
}

/// The doc line of the item at position `i` (see `rust_doc_line`).
pub fn rust_doc_line_exec(cs: &[SyntaxNode], i: usize, source: &[u8]) -> (r: Option<Vec<char>>)
    requires
        i < cs.len(),
    ensures
        match r {
            Some(d) => rust_doc_line(cs@, i as int, source@) == Some(d@),
            None => rust_doc_line(cs@, i as int, source@) is None,
        },
{
    let mut j: usize = i;
    let mut top: Option<usize> = None;
    let mut go = true;
    while go && j > 0
        invariant
            j <= i < cs.len(),
            top matches Some(t) ==> t < cs.len(),
            go ==> rust_doc_top(cs@, i as int, source@, None) == rust_doc_top(
                cs@,
                j as int,
                source@,
                match top {
                    Some(t) => Some(t as int),
                    None => None,
                },
            ),
            !go ==> rust_doc_top(cs@, i as int, source@, None) == match top {
                Some(t) => Some(t as int),
                None => None::<int>,
            },
        decreases j, if go { 1int } else { 0int },
    {
        if kind_is(&cs[j - 1], "attribute_item") {
            j -= 1;
        } else if rust_doc_comment_exec(&cs[j - 1], source) {
            top = Some(j - 1);
            j -= 1;
        } else {
            go = false;
        }
    }
    match top {
        Some(t) => {
            let text = node_text(&cs[t], source);
            match strip_prefix_exec(text.as_slice(), chars_of("///").as_slice()) {
                Some(rest) => {
                    let d = trimmed(rest.as_slice());
                    if d.len() == 0 {
                        None
                    } else {
                        let c = truncate(string_of(d.as_slice()).as_str(), 120);
                        Some(chars_of(c.as_str()))
                    }
                },
                None => None,
            }
        },
        None => None,
    }
}

/// `kw` and the name of `c`, after its visibility (see `named_text`).
fn named_text_exec(c: &SyntaxNode, source: &[u8], kw: &str) -> (r: Option<Vec<char>>)
    ensures
        match r {
            Some(t) => named_text(*c, source@, kw@) == Some(t@),
            None => named_text(*c, source@, kw@) is None,
        },
{
    match child_by_field(c, "name") {
        Some(m) => {
            let mut rest = chars_of(kw);
            push_all(&mut rest, node_text(m, source).as_slice());
            let vis = chars_of(vis_prefix(c, source).as_str());
            Some(prefixed_exec(vis.as_slice(), rest.as_slice()))
        },
        None => None,
    }
}

/// The text of a `const` or `static` item (see `binding_text`).
fn binding_text_exec(c: &SyntaxNode, source: &[u8], kw: &str) -> (r: Option<Vec<char>>)
    ensures
        match r {
            Some(t) => binding_text(*c, source@, kw@) == Some(t@),
            None => binding_text(*c, source@, kw@) is None,
        },
{
    match (child_by_field(c, "name"), child_by_field(c, "type")) {
        (Some(m), Some(t)) => {
            let mut rest = chars_of(kw);
            push_all(&mut rest, node_text(m, source).as_slice());
            push_str(&mut rest, ": ");
            push_all(&mut rest, node_text(t, source).as_slice());
            let vis = chars_of(vis_prefix(c, source).as_str());
            Some(prefixed_exec(vis.as_slice(), rest.as_slice()))
        },
        _ => None,
    }
}

/// The text of an `impl` block (see `impl_text`).
fn impl_text_exec(c: &SyntaxNode, source: &[u8]) -> (r: Option<Vec<char>>)
    ensures
        match r {
            Some(t) => impl_text(*c, source@) == Some(t@),
            None => impl_text(*c, source@) is None,
        },
{
    match child_by_field(c, "type") {
        Some(ty) => match child_by_field(c, "trait") {
            Some(tr) => {
                let mut t = node_text(tr, source);
                push_str(&mut t, " for ");
                push_all(&mut t, node_text(ty, source).as_slice());
                Some(t)
            },
            None => Some(node_text(ty, source)),
        },
        None => None,
    }
}

/// The text `o`, if any, in section `s`.
fn pick(o: Option<Vec<char>>, s: Section) -> (r: Option<(Section, Vec<char>)>)
    ensures
        match r {
            Some((s2, t)) => s2 == s && (o matches Some(t0) && t0@ == t@),
            None => o is None,
        },
{
    match o {
        Some(t) => Some((s, t)),
        None => None,
    }
}

/// The section and text of a top-level item (see `rust_item`).
fn rust_item_exec(c: &SyntaxNode, source: &[u8]) -> (r: Option<(Section, Vec<char>)>)
    ensures
        match r {
            Some((s, t)) => rust_item(*c, source@) == Some((s, t@)),
            None => rust_item(*c, source@) is None,
        },
{
    if kind_is(c, "use_declaration") {
        let t = node_text(c, source);
        let u = match strip_prefix_exec(t.as_slice(), chars_of("use ").as_slice()) {
            Some(r) => r,
            None => t,
        };
        let e = trim_end_char_exec(u.as_slice(), ';');
        Some((Section::Import, trimmed(e.as_slice())))
    } else if kind_is(c, "const_item") {
        pick(binding_text_exec(c, source, ""), Section::Constant)
    } else if kind_is(c, "static_item") {
        pick(binding_text_exec(c, source, "static "), Section::Constant)
    } else if kind_is(c, "struct_item") {
        pick(named_text_exec(c, source, "struct "), Section::Type)
    } else if kind_is(c, "enum_item") {
        pick(named_text_exec(c, source, "enum "), Section::Type)
    } else if kind_is(c, "union_item") {
        pick(named_text_exec(c, source, "union "), Section::Type)
    } else if kind_is(c, "type_item") {
        pick(named_text_exec(c, source, "type "), Section::Type)
    } else if kind_is(c, "trait_item") {
        pick(named_text_exec(c, source, ""), Section::Trait)
    } else if kind_is(c, "impl_item") {
        pick(impl_text_exec(c, source), Section::Impl)
    } else if kind_is(c, "function_item") {
        match fn_signature(c, source) {
            Some(sig) => {
                let vis = chars_of(vis_prefix(c, source).as_str());
                Some((Section::Function, prefixed_exec(vis.as_slice(), chars_of(sig.as_str()).as_slice())))
            },
            None => None,
        }
    } else if kind_is(c, "mod_item") {
        pick(named_text_exec(c, source, ""), Section::Module)
    } else if kind_is(c, "macro_definition") {
        match child_by_field(c, "name") {
            Some(m) => {
                let mut t = node_text(m, source);
                push_str(&mut t, "!");
                Some((Section::Macro, t))
            },
            None => None,
        }
    } else {
        None
    }
}

/// Adds one member of a struct or impl body to the member lines.
fn rust_member_step_exec(acc: &mut Vec<String>, c: &SyntaxNode, source: &[u8])
    requires
        rows_fit(*c),
    ensures
        views(final(acc)@) == rust_member_step(views(old(acc)@), *c, source@),
{
    if kind_is(c, "function_item") {
        match fn_signature(c, source) {
            Some(sig) => {
                let vis = chars_of(vis_prefix(c, source).as_str());
                let mut line = prefixed_exec(vis.as_slice(), chars_of(sig.as_str()).as_slice());
                push_str(&mut line, " ");
                push_all(&mut line, node_range_exec(c).as_slice());
                push_text(acc, line.as_slice());
                let ghost a1 = views(acc@);
                let ins = analyze_body(c, source, Language::Rust);
                proof {
                    lemma_body_lines(ins, *c, source@, Language::Rust);
                }
                let ls = ins.format_lines();
                let ghost bl = views(ls@);
                let mut j: usize = 0;
                while j < ls.len()
                    invariant
                        j <= ls@.len(),
                        bl == views(ls@),
                        views(acc@) == a1 + indented(bl.take(j as int), "  "@),
                    decreases ls@.len() - j,
                {
                    let mut l = chars_of("  ");
                    push_all(&mut l, chars_of(ls[j].as_str()).as_slice());
                    push_text(acc, l.as_slice());
                    assert(indented(bl.take(j + 1), "  "@) =~= indented(bl.take(j as int), "  "@).push(
                        "  "@ + bl[j as int],
                    ));
                    j += 1;
                }
                assert(bl.take(j as int) =~= bl);
            },
            None => {},
        }
    } else if kind_is(c, "field_declaration") {
        if acc.len() < FIELD_TRUNCATE_THRESHOLD {
            let t = trimmed(node_text(c, source).as_slice());
            push_text(acc, t.as_slice());
        }
    }
}

/// The lines under a struct or impl block (see `rust_children`).
fn rust_children_exec(c: &SyntaxNode, source: &[u8]) -> (r: Vec<String>)
    requires
        rows_fit(*c),
    ensures
        views(r@) == rust_children(*c, source@),
{
    let mut acc: Vec<String> = Vec::new();
    assert(views(acc@) =~= Seq::<Seq<char>>::empty());
    if kind_is(c, "struct_item") || kind_is(c, "impl_item") {
        match child_by_field(c, "body") {
            Some(b) => {
                proof {
                    lemma_fits_below(*c);
                    lemma_fits_below(*b);
                }
                let ghost a0 = views(acc@);
                let mut i: usize = 0;
                while i < b.children.len()
                    invariant
                        i <= b.children@.len(),
                        forall|k: int| 0 <= k < b.children@.len() ==> #[trigger] rows_fit(b.children@[k]),
                        views(acc@) == rust_fold(a0, b.children@.take(i as int), source@),
                    decreases b.children@.len() - i,
                {
                    assert(b.children@.take(i + 1).drop_last() =~= b.children@.take(i as int));
                    rust_member_step_exec(&mut acc, &b.children[i], source);
                    i += 1;
                }
                assert(b.children@.take(i as int) =~= b.children@);
            },
            None => {},
        }
    }
    acc
}

/// The entries of the top-level item at position `i` (see `rust_entries`).
pub fn rust_entries_exec(cs: &[SyntaxNode], i: usize, source: &[u8]) -> (r: Option<SkeletonEntry>)
    requires
        i < cs.len(),
        rows_fit(cs@[i as int]),
    ensures
        match r {
            Some(e) => rust_entries(cs@, i as int, source@) == seq![e@],
            None => rust_entries(cs@, i as int, source@) == Seq::<EntryView>::empty(),
        },
{
    match rust_item_exec(&cs[i], source) {
        Some((sec, t)) => {
            let mut e = new_entry(sec, &cs[i], t.as_slice());
            let a = attr_run_exec(cs, i);
            proof {
                lemma_attr_run(cs@, i as int);
            }
            e.attrs = relevant_attrs_in(cs, a, i, source);
            e.children = rust_children_exec(&cs[i], source);
            Some(e)
        },
        None => None,
    }
}

} // verus!
