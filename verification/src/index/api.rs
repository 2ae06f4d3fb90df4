//! The public API of a file: its public types and the signatures of its
//! public functions, per language.
use vstd::prelude::*;

use crate::index::skeleton::PublicApi;
use crate::index::syntax::{
    child_by_field, field_child, find_child, kind_child, kind_is, node_text, text_of, SyntaxNode,
};
use crate::index::Language;
use crate::index::rust_items::{fn_signature, signature_of};
use crate::text::{
    chars_of, contains, has_prefix, has_substring, is_upper, push_all, push_str, starts_with,
    str_is, string_of, views,
};

verus! {

/// The public types and function signatures as texts.
pub type ApiView = (Seq<Seq<char>>, Seq<Seq<char>>);

/// The text of an optional node, or `dflt`.
pub open spec fn text_or(o: Option<SyntaxNode>, src: Seq<u8>, dflt: Seq<char>) -> Seq<char> {
    match o {
        Some(n) => text_of(n, src),
        None => dflt,
    }
}

/// `pre` and the text of an optional node, or nothing.
pub open spec fn text_after(o: Option<SyntaxNode>, src: Seq<u8>, pre: Seq<char>) -> Seq<char> {
    match o {
        Some(n) => pre + text_of(n, src),
        None => Seq::empty(),
    }
}

/// The name of a node, as a list of at most one.
pub open spec fn name_list(n: SyntaxNode, src: Seq<u8>) -> Seq<Seq<char>> {
    match field_child(n, "name"@) {
        Some(m) => seq![text_of(m, src)],
        None => Seq::empty(),
    }
}

// ---- Python ----

/// The signature of a public Python function: name, parameters and
/// `-> return type`; nothing for a name starting with `_`.
pub open spec fn py_fn(f: SyntaxNode, src: Seq<u8>) -> Seq<Seq<char>> {
    match field_child(f, "name"@) {
        Some(m) => if starts_with(text_of(m, src), "_"@) {
            Seq::empty()
        } else {
            seq![
                text_of(m, src) + text_or(field_child(f, "parameters"@), src, "()"@) + text_after(
                    field_child(f, "return_type"@),
                    src,
                    " -> "@,
                ),
            ]
        },
        None => Seq::empty(),
    }
}

/// What a top-level Python statement adds to the public API.
pub open spec fn py_api_child(c: SyntaxNode, src: Seq<u8>) -> ApiView {
    if c.kind@ == "class_definition"@ {
        (name_list(c, src), Seq::empty())
    } else if c.kind@ == "function_definition"@ {
        (Seq::empty(), py_fn(c, src))
    } else if c.kind@ == "decorated_definition"@ {
        match kind_child(c, "class_definition"@) {
            Some(k) => (name_list(k, src), Seq::empty()),
            None => match kind_child(c, "function_definition"@) {
                Some(f) => (Seq::empty(), py_fn(f, src)),
                None => (Seq::empty(), Seq::empty()),
            },
        }
    } else {
        (Seq::empty(), Seq::empty())
    }
}

// ---- Go ----

/// The name starts with an ASCII capital (Go's exported names).
pub open spec fn go_exported(name: Seq<char>) -> bool {
    name.len() > 0 && is_upper(name[0])
}

/// The parameters and result of a Go function.
pub open spec fn go_params_result(n: SyntaxNode, src: Seq<u8>) -> Seq<char> {
    text_or(field_child(n, "parameters"@), src, "()"@) + text_after(
        field_child(n, "result"@),
        src,
        " "@,
    )
}

/// The exported type names of the specs of a Go type declaration.
pub open spec fn go_type_names(specs: Seq<SyntaxNode>, src: Seq<u8>) -> Seq<Seq<char>>
    decreases specs.len(),
{
    if specs.len() == 0 {
        Seq::empty()
    } else {
        let s = specs.last();
        go_type_names(specs.drop_last(), src) + if (s.kind@ == "type_spec"@ || s.kind@
            == "type_alias"@) && (match field_child(s, "name"@) {
            Some(m) => go_exported(text_of(m, src)),
            None => false,
        }) {
            name_list(s, src)
        } else {
            Seq::empty()
        }
    }
}

/// What a top-level Go declaration adds to the public API.
pub open spec fn go_api_child(c: SyntaxNode, src: Seq<u8>) -> ApiView {
    if c.kind@ == "type_declaration"@ {
        (go_type_names(c.children@, src), Seq::empty())
    } else if c.kind@ == "function_declaration"@ {
        match field_child(c, "name"@) {
            Some(m) => if go_exported(text_of(m, src)) {
                (Seq::empty(), seq![text_of(m, src) + go_params_result(c, src)])
            } else {
                (Seq::empty(), Seq::empty())
            },
            None => (Seq::empty(), Seq::empty()),
        }
    } else if c.kind@ == "method_declaration"@ {
        match field_child(c, "name"@) {
            Some(m) => if go_exported(text_of(m, src)) {
                (
                    Seq::empty(),
                    seq![
                        text_or(field_child(c, "receiver"@), src, "()"@) + " "@ + text_of(m, src)
                            + go_params_result(c, src),
                    ],
                )
            } else {
                (Seq::empty(), Seq::empty())
            },
            None => (Seq::empty(), Seq::empty()),
        }
    } else {
        (Seq::empty(), Seq::empty())
    }
}

// ---- TypeScript / JavaScript ----

/// A TypeScript return type as written after the parameters.
pub open spec fn ts_return(o: Option<SyntaxNode>, src: Seq<u8>) -> Seq<char> {
    match o {
        Some(n) => if starts_with(text_of(n, src), ":"@) {
            text_of(n, src)
        } else {
            ": "@ + text_of(n, src)
        },
        None => Seq::empty(),
    }
}

/// What the declarations `ds` of an export statement add to the API.
pub open spec fn ts_exports(ds: Seq<SyntaxNode>, src: Seq<u8>) -> ApiView
    decreases ds.len(),
{
    if ds.len() == 0 {
        (Seq::empty(), Seq::empty())
    } else {
        let a = ts_exports(ds.drop_last(), src);
        let d = ds.last();
        if d.kind@ == "class_declaration"@ || d.kind@ == "interface_declaration"@ || d.kind@
            == "type_alias_declaration"@ || d.kind@ == "enum_declaration"@ {
            (a.0 + name_list(d, src), a.1)
        } else if d.kind@ == "function_declaration"@ {
            match field_child(d, "name"@) {
                Some(m) => (
                    a.0,
                    a.1.push(
                        text_of(m, src) + text_or(field_child(d, "parameters"@), src, "()"@)
                            + ts_return(field_child(d, "return_type"@), src),
                    ),
                ),
                None => a,
            }
        } else {
            a
        }
    }
}

/// What a top-level TypeScript/JavaScript statement adds to the API.
pub open spec fn ts_api_child(c: SyntaxNode, src: Seq<u8>) -> ApiView {
    if c.kind@ == "export_statement"@ {
        ts_exports(c.children@, src)
    } else {
        (Seq::empty(), Seq::empty())
    }
}

// ---- Java ----

/// A Java modifier keyword the skeleton keeps.
pub open spec fn java_keyword(t: Seq<char>) -> bool {
    t == "public"@ || t == "private"@ || t == "protected"@ || t == "static"@ || t == "final"@ || t
        == "abstract"@ || t == "default"@ || t == "synchronized"@
}

/// The annotations among modifier nodes `ms`.
pub open spec fn java_annotations(ms: Seq<SyntaxNode>, src: Seq<u8>) -> Seq<Seq<char>>
    decreases ms.len(),
{
    if ms.len() == 0 {
        Seq::empty()
    } else {
        java_annotations(ms.drop_last(), src) + if ms.last().kind@ == "marker_annotation"@
            || ms.last().kind@ == "annotation"@ {
            seq![text_of(ms.last(), src)]
        } else {
            Seq::empty()
        }
    }
}

/// The kept keywords among modifier nodes `ms`.
pub open spec fn java_keywords(ms: Seq<SyntaxNode>, src: Seq<u8>) -> Seq<Seq<char>>
    decreases ms.len(),
{
    if ms.len() == 0 {
        Seq::empty()
    } else {
        java_keywords(ms.drop_last(), src) + if !(ms.last().kind@ == "marker_annotation"@
            || ms.last().kind@ == "annotation"@) && java_keyword(text_of(ms.last(), src)) {
            seq![text_of(ms.last(), src)]
        } else {
            Seq::empty()
        }
    }
}

/// The modifiers of a Java declaration: its annotations, then its kept
/// keywords, joined with spaces.
pub open spec fn java_modifiers(n: SyntaxNode, src: Seq<u8>) -> Seq<char> {
    match kind_child(n, "modifiers"@) {
        Some(m) => crate::text::join(
            java_annotations(m.children@, src) + java_keywords(m.children@, src),
            " "@,
        ),
        None => Seq::empty(),
    }
}

/// The signature of a Java method: modifiers, return type, name and
/// parameters.
pub open spec fn java_method_sig(n: SyntaxNode, src: Seq<u8>) -> Seq<char> {
    let mods = java_modifiers(n, src);
    let ret = text_or(field_child(n, "type"@), src, Seq::empty());
    let name = text_or(field_child(n, "name"@), src, "_"@);
    let params = text_or(field_child(n, "parameters"@), src, "()"@);
    let base = if ret.len() == 0 {
        name + params
    } else {
        ret + " "@ + name + params
    };
    if mods.len() == 0 {
        base
    } else {
        mods + " "@ + base
    }
}

/// The public methods among the members `ms` of a type (all of them in an
/// interface).
pub open spec fn java_methods(ms: Seq<SyntaxNode>, src: Seq<u8>, interface: bool) -> Seq<Seq<char>>
    decreases ms.len(),
{
    if ms.len() == 0 {
        Seq::empty()
    } else {
        let m = ms.last();
        java_methods(ms.drop_last(), src, interface) + if m.kind@ == "method_declaration"@ && (
        interface || contains(java_modifiers(m, src), "public"@)) {
            seq![java_method_sig(m, src)]
        } else {
            Seq::empty()
        }
    }
}

/// What a top-level Java declaration adds to the public API.
pub open spec fn java_api_child(c: SyntaxNode, src: Seq<u8>) -> ApiView {
    if (c.kind@ == "class_declaration"@ || c.kind@ == "interface_declaration"@ || c.kind@
        == "enum_declaration"@ || c.kind@ == "record_declaration"@) && contains(
        java_modifiers(c, src),
        "public"@,
    ) {
        (
            name_list(c, src),
            match field_child(c, "body"@) {
                Some(b) => java_methods(b.children@, src, c.kind@ == "interface_declaration"@),
                None => Seq::empty(),
            },
        )
    } else {
        (Seq::empty(), Seq::empty())
    }
}

// ---- Rust ----

/// A Rust item kind that defines a type.
pub open spec fn rust_type_kind(k: Seq<char>) -> bool {
    k == "struct_item"@ || k == "enum_item"@ || k == "union_item"@ || k == "trait_item"@ || k == "type_item"@
}

/// What a top-level Rust item adds to the public API: an item with any
/// visibility (`pub`, `pub(crate)`, `pub(super)`, ...) gives its name when
/// it defines a type, its signature when it is a function (see
/// `signature_of`); a private item gives nothing.
pub open spec fn rust_api_child(c: SyntaxNode, src: Seq<u8>) -> ApiView {
    if kind_child(c, "visibility_modifier"@) is None {
        (Seq::empty(), Seq::empty())
    } else if rust_type_kind(c.kind@) {
        (name_list(c, src), Seq::empty())
    } else if c.kind@ == "function_item"@ {
        match signature_of(c, src) {
            Some(t) => (Seq::empty(), seq![t]),
            None => (Seq::empty(), Seq::empty()),
        }
    } else {
        (Seq::empty(), Seq::empty())
    }
}

/// What a top-level node adds to the public API in `lang`.
pub open spec fn api_child(c: SyntaxNode, src: Seq<u8>, lang: Language) -> ApiView {
    match lang {
        Language::Python => py_api_child(c, src),
        Language::Go => go_api_child(c, src),
        Language::TypeScript | Language::JavaScript => ts_api_child(c, src),
        Language::Java => java_api_child(c, src),
        Language::Rust => rust_api_child(c, src),
    }
}

/// The public API of the top-level nodes `cs`, in order.
pub open spec fn api_of(cs: Seq<SyntaxNode>, src: Seq<u8>, lang: Language) -> ApiView
    decreases cs.len(),
{
    if cs.len() == 0 {
        (Seq::empty(), Seq::empty())
    } else {
        let a = api_of(cs.drop_last(), src, lang);
        let c = api_child(cs.last(), src, lang);
        (a.0 + c.0, a.1 + c.1)
    }
}

/// The text of an optional node, or `dflt`.
pub(crate) fn text_or_exec(o: Option<&SyntaxNode>, source: &[u8], dflt: &str) -> (r: Vec<char>)
    ensures
        r@ == text_or(crate::index::syntax::deref_opt(o), source@, dflt@),
{
    match o {
        Some(n) => node_text(n, source),
        None => chars_of(dflt),
    }
}

/// `pre` and the text of an optional node, or nothing.
pub(crate) fn text_after_exec(o: Option<&SyntaxNode>, source: &[u8], pre: &str) -> (r: Vec<char>)
    ensures
        r@ == text_after(crate::index::syntax::deref_opt(o), source@, pre@),
{
    match o {
        Some(n) => {
            let mut r = chars_of(pre);
            let t = node_text(n, source);
            push_all(&mut r, t.as_slice());
            r
        },
        None => Vec::new(),
    }
}

/// Appends a text to a list of strings.
pub(crate) fn push_text(v: &mut Vec<String>, t: &[char])
    ensures
        views(final(v)@) == views(old(v)@).push(t@),
{
    let ghost v0 = views(v@);
    v.push(string_of(t));
    assert(views(v@) =~= v0.push(t@));
}

/// Appends the name of a node, if it has one.
fn push_name(v: &mut Vec<String>, n: &SyntaxNode, source: &[u8])
    ensures
        views(final(v)@) == views(old(v)@) + name_list(*n, source@),
{
    let ghost v0 = views(v@);
    match child_by_field(n, "name") {
        Some(m) => {
            let t = node_text(m, source);
            push_text(v, t.as_slice());
        },
        None => {},
    }
    assert(views(v@) =~= v0 + name_list(*n, source@));
}

/// Appends the signature of a public Python function.
fn push_py_fn(v: &mut Vec<String>, f: &SyntaxNode, source: &[u8])
    ensures
        views(final(v)@) == views(old(v)@) + py_fn(*f, source@),
{
    let ghost v0 = views(v@);
    match child_by_field(f, "name") {
        Some(m) => {
            let name = node_text(m, source);
            if !has_prefix(name.as_slice(), chars_of("_").as_slice()) {
                let mut sig = name;
                let p = text_or_exec(child_by_field(f, "parameters"), source, "()");
                push_all(&mut sig, p.as_slice());
                let r = text_after_exec(child_by_field(f, "return_type"), source, " -> ");
                push_all(&mut sig, r.as_slice());
                push_text(v, sig.as_slice());
            }
        },
        None => {},
    }
    assert(views(v@) =~= v0 + py_fn(*f, source@));
}

/// Whether a name is exported in Go.
fn go_exported_exec(name: &[char]) -> (b: bool)
    ensures
        b == go_exported(name@),
{
    name.len() > 0 && 'A' <= name[0] && name[0] <= 'Z'
}

/// The parameters and result of a Go function.
pub(crate) fn go_params_result_exec(n: &SyntaxNode, source: &[u8]) -> (r: Vec<char>)
    ensures
        r@ == go_params_result(*n, source@),
{
    let mut r = text_or_exec(child_by_field(n, "parameters"), source, "()");
    let t = text_after_exec(child_by_field(n, "result"), source, " ");
    push_all(&mut r, t.as_slice());
    r
}

/// The modifiers of a Java declaration (see `java_modifiers`).
pub(crate) fn java_modifiers_exec(n: &SyntaxNode, source: &[u8]) -> (r: Vec<char>)
    ensures
        r@ == java_modifiers(*n, source@),
{
    match find_child(n, "modifiers") {
        None => Vec::new(),
        Some(m) => {
            let mut anns: Vec<Vec<char>> = Vec::new();
            let mut kws: Vec<Vec<char>> = Vec::new();
            let mut i: usize = 0;
            assert(m.children@.take(0) =~= Seq::<SyntaxNode>::empty());
            while i < m.children.len()
                invariant
                    i <= m.children@.len(),
                    crate::deps::sorted::cviews(anns@) == java_annotations(m.children@.take(i as int), source@),
                    crate::deps::sorted::cviews(kws@) == java_keywords(m.children@.take(i as int), source@),
                decreases m.children@.len() - i,
            {
                let c = &m.children[i];
                assert(m.children@.take(i + 1).drop_last() =~= m.children@.take(i as int));
                let t = node_text(c, source);
                let ghost a0 = crate::deps::sorted::cviews(anns@);
                let ghost k0 = crate::deps::sorted::cviews(kws@);
                if kind_is(c, "marker_annotation") || kind_is(c, "annotation") {
                    anns.push(t);
                    assert(crate::deps::sorted::cviews(anns@) =~= a0.push(text_of(*c, source@)));
                } else {
                    let ts = string_of(t.as_slice());
                    let k = ts.as_str();
                    if str_is(k, "public") || str_is(k, "private") || str_is(k, "protected")
                        || str_is(k, "static") || str_is(k, "final") || str_is(k, "abstract")
                        || str_is(k, "default") || str_is(k, "synchronized") {
                        kws.push(t);
                        assert(crate::deps::sorted::cviews(kws@) =~= k0.push(text_of(*c, source@)));
                    }
                }
                i += 1;
            }
            assert(m.children@.take(i as int) =~= m.children@);
            let mut all = anns;
            let ghost av = crate::deps::sorted::cviews(all@);
            let mut j: usize = 0;
            while j < kws.len()
                invariant
                    j <= kws@.len(),
                    crate::deps::sorted::cviews(all@) == av + crate::deps::sorted::cviews(kws@).take(j as int),
                decreases kws@.len() - j,
            {
                let c = crate::text::copy_range(kws[j].as_slice(), 0, kws[j].len());
                assert(c@ =~= kws@[j as int]@);
                let ghost b0 = crate::deps::sorted::cviews(all@);
                all.push(c);
                assert(crate::deps::sorted::cviews(all@) =~= b0.push(kws@[j as int]@));
                assert(crate::deps::sorted::cviews(kws@).take(j + 1) =~= crate::deps::sorted::cviews(kws@).take(j as int).push(kws@[j as int]@));
                j += 1;
            }
            assert(crate::deps::sorted::cviews(kws@).take(j as int) =~= crate::deps::sorted::cviews(kws@));
            let sp = chars_of(" ");
            let r = crate::text::join_exec(all.as_slice(), all.len(), sp.as_slice());
            assert(all@.take(all@.len() as int).map_values(|v: Vec<char>| v@) =~= crate::deps::sorted::cviews(all@));
            r
        },
    }
}

/// The signature of a Java method (see `java_method_sig`).
pub(crate) fn java_method_sig_exec(n: &SyntaxNode, source: &[u8]) -> (r: Vec<char>)
    ensures
        r@ == java_method_sig(*n, source@),
{
    let mods = java_modifiers_exec(n, source);
    let ret = match child_by_field(n, "type") {
        Some(t) => node_text(t, source),
        None => Vec::new(),
    };
    let name = text_or_exec(child_by_field(n, "name"), source, "_");
    let params = text_or_exec(child_by_field(n, "parameters"), source, "()");
    let mut base: Vec<char> = Vec::new();
    if ret.len() > 0 {
        push_all(&mut base, ret.as_slice());
        push_str(&mut base, " ");
    }
    push_all(&mut base, name.as_slice());
    push_all(&mut base, params.as_slice());
    if mods.len() == 0 {
        assert(base@ =~= java_method_sig(*n, source@));
        base
    } else {
        let mut r = mods;
        push_str(&mut r, " ");
        push_all(&mut r, base.as_slice());
        assert(r@ =~= java_method_sig(*n, source@));
        r
    }
}

/// Appends what a top-level node adds to the public API.
fn push_api_child(c: &SyntaxNode, source: &[u8], lang: Language, types: &mut Vec<String>, fns: &mut Vec<String>)
    ensures
        views(final(types)@) == views(old(types)@) + api_child(*c, source@, lang).0,
        views(final(fns)@) == views(old(fns)@) + api_child(*c, source@, lang).1,
{
    let ghost t0 = views(types@);
    let ghost f0 = views(fns@);
    match lang {
        Language::Rust => {
            if find_child(c, "visibility_modifier").is_some() {
                if kind_is(c, "struct_item") || kind_is(c, "enum_item") || kind_is(c, "union_item")
                    || kind_is(c, "trait_item") || kind_is(c, "type_item") {
                    push_name(types, c, source);
                } else if kind_is(c, "function_item") {
                    match fn_signature(c, source) {
                        Some(t) => {
                            let ghost f1 = views(fns@);
                            fns.push(t);
                            assert(views(fns@) =~= f1.push(signature_of(*c, source@)->0));
                        },
                        None => {},
                    }
                }
            }
        },
        Language::Python => {
            if kind_is(c, "class_definition") {
                push_name(types, c, source);
            } else if kind_is(c, "function_definition") {
                push_py_fn(fns, c, source);
            } else if kind_is(c, "decorated_definition") {
                match find_child(c, "class_definition") {
                    Some(k) => push_name(types, k, source),
                    None => match find_child(c, "function_definition") {
                        Some(f) => push_py_fn(fns, f, source),
                        None => {},
                    },
                }
            }
        },
        Language::Go => {
            if kind_is(c, "type_declaration") {
                let mut i: usize = 0;
                assert(c.children@.take(0) =~= Seq::<SyntaxNode>::empty());
                while i < c.children.len()
                    invariant
                        i <= c.children@.len(),
                        views(types@) == t0 + go_type_names(c.children@.take(i as int), source@),
                    decreases c.children@.len() - i,
                {
                    let sp = &c.children[i];
                    assert(c.children@.take(i + 1).drop_last() =~= c.children@.take(i as int));
                    if kind_is(sp, "type_spec") || kind_is(sp, "type_alias") {
                        match child_by_field(sp, "name") {
                            Some(m) => {
                                let name = node_text(m, source);
                                if go_exported_exec(name.as_slice()) {
                                    push_text(types, name.as_slice());
                                }
                            },
                            None => {},
                        }
                    }
                    i += 1;
                    assert(views(types@) =~= t0 + go_type_names(c.children@.take(i as int), source@));
                }
                assert(c.children@.take(i as int) =~= c.children@);
            } else if kind_is(c, "function_declaration") {
                match child_by_field(c, "name") {
                    Some(m) => {
                        let mut name = node_text(m, source);
                        if go_exported_exec(name.as_slice()) {
                            let pr = go_params_result_exec(c, source);
                            push_all(&mut name, pr.as_slice());
                            push_text(fns, name.as_slice());
                        }
                    },
                    None => {},
                }
            } else if kind_is(c, "method_declaration") {
                match child_by_field(c, "name") {
                    Some(m) => {
                        let name = node_text(m, source);
                        if go_exported_exec(name.as_slice()) {
                            let mut sig = text_or_exec(child_by_field(c, "receiver"), source, "()");
                            push_str(&mut sig, " ");
                            push_all(&mut sig, name.as_slice());
                            let pr = go_params_result_exec(c, source);
                            push_all(&mut sig, pr.as_slice());
                            push_text(fns, sig.as_slice());
                        }
                    },
                    None => {},
                }
            }
        },
        Language::TypeScript | Language::JavaScript => {
            if kind_is(c, "export_statement") {
                let mut i: usize = 0;
                assert(c.children@.take(0) =~= Seq::<SyntaxNode>::empty());
                while i < c.children.len()
                    invariant
                        i <= c.children@.len(),
                        views(types@) == t0 + ts_exports(c.children@.take(i as int), source@).0,
                        views(fns@) == f0 + ts_exports(c.children@.take(i as int), source@).1,
                    decreases c.children@.len() - i,
                {
                    let d = &c.children[i];
                    assert(c.children@.take(i + 1).drop_last() =~= c.children@.take(i as int));
                    if kind_is(d, "class_declaration") || kind_is(d, "interface_declaration")
                        || kind_is(d, "type_alias_declaration") || kind_is(d, "enum_declaration") {
                        push_name(types, d, source);
                    } else if kind_is(d, "function_declaration") {
                        match child_by_field(d, "name") {
                            Some(m) => {
                                let mut sig = node_text(m, source);
                                let p = text_or_exec(child_by_field(d, "parameters"), source, "()");
                                push_all(&mut sig, p.as_slice());
                                let ghost s0 = sig@;
                                match child_by_field(d, "return_type") {
                                    Some(rt) => {
                                        let t = node_text(rt, source);
                                        if !has_prefix(t.as_slice(), chars_of(":").as_slice()) {
                                            push_str(&mut sig, ": ");
                                        }
                                        push_all(&mut sig, t.as_slice());
                                    },
                                    None => {},
                                }
                                assert(sig@ =~= s0 + ts_return(field_child(*d, "return_type"@), source@));
                                push_text(fns, sig.as_slice());
                            },
                            None => {},
                        }
                    }
                    i += 1;
                    assert(views(types@) =~= t0 + ts_exports(c.children@.take(i as int), source@).0);
                    assert(views(fns@) =~= f0 + ts_exports(c.children@.take(i as int), source@).1);
                }
                assert(c.children@.take(i as int) =~= c.children@);
            }
        },
        Language::Java => {
            if kind_is(c, "class_declaration") || kind_is(c, "interface_declaration") || kind_is(
                c,
                "enum_declaration",
            ) || kind_is(c, "record_declaration") {
                let mods = java_modifiers_exec(c, source);
                if has_substring(mods.as_slice(), chars_of("public").as_slice()) {
                    push_name(types, c, source);
                    let iface = kind_is(c, "interface_declaration");
                    match child_by_field(c, "body") {
                        Some(b) => {
                            let mut i: usize = 0;
                            assert(b.children@.take(0) =~= Seq::<SyntaxNode>::empty());
                            while i < b.children.len()
                                invariant
                                    i <= b.children@.len(),
                                    views(fns@) == f0 + java_methods(b.children@.take(i as int), source@, iface),
                                decreases b.children@.len() - i,
                            {
                                let m = &b.children[i];
                                assert(b.children@.take(i + 1).drop_last() =~= b.children@.take(i as int));
                                if kind_is(m, "method_declaration") {
                                    let keep = iface || {
                                        let mm = java_modifiers_exec(m, source);
                                        has_substring(mm.as_slice(), chars_of("public").as_slice())
                                    };
                                    if keep {
                                        let sig = java_method_sig_exec(m, source);
                                        push_text(fns, sig.as_slice());
                                    }
                                }
                                i += 1;
                                assert(views(fns@) =~= f0 + java_methods(b.children@.take(i as int), source@, iface));
                            }
                            assert(b.children@.take(i as int) =~= b.children@);
                        },
                        None => {},
                    }
                }
            }
        },
    }
    assert(views(types@) =~= t0 + api_child(*c, source@, lang).0);
    assert(views(fns@) =~= f0 + api_child(*c, source@, lang).1);
}

/// The public API of a syntax tree: per top-level node in order, its
/// public types and function signatures (see `api_child`).
pub fn api_of_tree(root: &SyntaxNode, source: &[u8], lang: Language) -> (r: PublicApi)
    ensures
        views(r.types@) == api_of(root.children@, source@, lang).0,
        views(r.functions@) == api_of(root.children@, source@, lang).1,
{
    let mut types: Vec<String> = Vec::new();
    let mut functions: Vec<String> = Vec::new();
    let mut i: usize = 0;
    assert(views(types@) =~= api_of(root.children@.take(0), source@, lang).0);
    assert(views(functions@) =~= api_of(root.children@.take(0), source@, lang).1);
    while i < root.children.len()
        invariant
            i <= root.children@.len(),
            views(types@) == api_of(root.children@.take(i as int), source@, lang).0,
            views(functions@) == api_of(root.children@.take(i as int), source@, lang).1,
        decreases root.children@.len() - i,
    {
        push_api_child(&root.children[i], source, lang, &mut types, &mut functions);
        assert(root.children@.take(i + 1).drop_last() =~= root.children@.take(i as int));
        i += 1;
    }
    assert(root.children@.take(i as int) =~= root.children@);
    PublicApi { types, functions }
}

/// Why a file could not be indexed.
#[derive(Debug)]
pub enum IndexError {
    /// The extension is not that of a supported language.
    UnsupportedLanguage(String),
    /// The file is larger than the limit.
    FileTooLarge { size: u64, max: u64 },
    /// Reading the file failed.
    Io(String),
    /// The parser did not produce a tree.
    ParseFailed,
}

impl IndexError {
    /// The message of the error.
    pub open spec fn message_text(&self) -> Seq<char> {
        match self {
            IndexError::UnsupportedLanguage(e) => "unsupported file type: "@ + e@,
            IndexError::FileTooLarge { size, max } => "file too large ("@ + crate::text::decimal(
                *size as nat,
            ) + " bytes, max "@ + crate::text::decimal(*max as nat) + ")"@,
            IndexError::Io(e) => "read error: "@ + e@,
            IndexError::ParseFailed => "parse error: tree-sitter failed to parse file"@,
        }
    }

    /// The message of the error, as it is shown to the user.
    pub fn message(&self) -> (r: String)
        ensures
            r@ == self.message_text(),
    {
        let mut m: Vec<char> = Vec::new();
        match self {
            IndexError::UnsupportedLanguage(e) => {
                push_str(&mut m, "unsupported file type: ");
                push_all(&mut m, chars_of(e.as_str()).as_slice());
            },
            IndexError::FileTooLarge { size, max } => {
                push_str(&mut m, "file too large (");
                push_all(&mut m, crate::text::decimal_u64(*size).as_slice());
                push_str(&mut m, " bytes, max ");
                push_all(&mut m, crate::text::decimal_u64(*max).as_slice());
                push_str(&mut m, ")");
            },
            IndexError::Io(e) => {
                push_str(&mut m, "read error: ");
                push_all(&mut m, chars_of(e.as_str()).as_slice());
            },
            IndexError::ParseFailed => {
                push_str(&mut m, "parse error: tree-sitter failed to parse file");
            },
        }
        string_of(m.as_slice())
    }
}

/// The public types and function signatures of a source file: an error
/// when it does not parse, else those of its syntax tree (see
/// `api_of_tree`).
pub fn extract_public_api(source: &[u8], lang: Language) -> (r: Result<(Vec<String>, Vec<String>), IndexError>)
    ensures
        match crate::index::syntax::parse_of(lang, source@) {
            Some(t) => (r matches Ok((types, fns)) && views(types@) == api_of(t.children@, source@, lang).0
                && views(fns@) == api_of(t.children@, source@, lang).1),
            None => (r matches Err(e) && e is ParseFailed),
        },
{
    match crate::index::syntax::parse_source(source, lang) {
        Some(tree) => {
            let api = api_of_tree(&tree, source, lang);
            Ok((api.types, api.functions))
        },
        None => Err(IndexError::ParseFailed),
    }
}

} // verus!
