//! The raw imports of a file: the import paths and the symbols they name,
//! read off the top level of its syntax tree.
use vstd::prelude::*;

use crate::deps::rustuse::{expand_rust_use, expand_use};
use crate::deps::sorted::cviews;
use crate::index::skeleton::nonempty_trimmed;
use crate::index::syntax::{
    child_by_field, field_child, find_child, first_child, kind_child, kind_is, node_text, text_of,
    parse_source, SyntaxNode,
};
use crate::index::Language;
use crate::text::{
    chars_of, copy_range, find_at, find_from, is_quote, occurs_at, push_all, split_exec, split_str,
    string_of, strip_prefix, strip_prefix_exec, trim, trim_char, trim_char_exec, trim_end_char,
    trim_end_char_exec, trim_quotes, trim_quotes_exec, trimmed, views,
};

verus! {

/// A raw import as texts: the path and the symbols.
pub open spec fn raw_view(r: (String, Vec<String>)) -> (Seq<char>, Seq<Seq<char>>) {
    (r.0@, views(r.1@))
}

/// Raw imports as texts.
pub open spec fn raws_view(v: Seq<(String, Vec<String>)>) -> Seq<(Seq<char>, Seq<Seq<char>>)> {
    v.map_values(|r: (String, Vec<String>)| raw_view(r))
}

/// `t` without the prefix `p` when it has it.
pub open spec fn without_prefix(t: Seq<char>, p: Seq<char>) -> Seq<char> {
    match strip_prefix(t, p) {
        Some(r) => r,
        None => t,
    }
}

/// The import a top-level Python statement makes: `import X` gives `X`;
/// `from X import a, b` gives `X` with `a` and `b`.
pub open spec fn python_import(c: SyntaxNode, src: Seq<u8>) -> Seq<(Seq<char>, Seq<Seq<char>>)> {
    let t = text_of(c, src);
    if c.kind@ == "import_statement"@ {
        let cleaned = trim(without_prefix(t, "import "@));
        if cleaned.len() > 0 {
            seq![(cleaned, Seq::empty())]
        } else {
            Seq::empty()
        }
    } else if c.kind@ == "import_from_statement"@ {
        match strip_prefix(t, "from "@) {
            Some(rest) => match find_at(rest, " import "@, 0) {
                Some(idx) => {
                    let module = trim(rest.take(idx));
                    let symbols = nonempty_trimmed(
                        split_str(trim(rest.skip(idx + " import "@.len())), ","@),
                    );
                    if module.len() > 0 {
                        seq![(module, symbols)]
                    } else {
                        Seq::empty()
                    }
                },
                None => Seq::empty(),
            },
            None => Seq::empty(),
        }
    } else {
        Seq::empty()
    }
}

/// The symbols the named imports `items` of a TypeScript import name: per
/// import specifier its name, or else its first child.
pub open spec fn ts_symbols(items: Seq<SyntaxNode>, src: Seq<u8>) -> Seq<Seq<char>>
    decreases items.len(),
{
    if items.len() == 0 {
        Seq::empty()
    } else {
        let it = items.last();
        ts_symbols(items.drop_last(), src) + if it.kind@ == "import_specifier"@ {
            match field_child(it, "name"@) {
                Some(n) => seq![text_of(n, src)],
                None => match first_child(it) {
                    Some(f) => seq![text_of(f, src)],
                    None => Seq::empty(),
                },
            }
        } else {
            Seq::empty()
        }
    }
}

/// The import a top-level TypeScript/JavaScript statement makes: its
/// source without quotes, with the names it imports by name.
pub open spec fn ts_import(c: SyntaxNode, src: Seq<u8>) -> Seq<(Seq<char>, Seq<Seq<char>>)> {
    if c.kind@ == "import_statement"@ {
        match field_child(c, "source"@) {
            Some(s) => {
                let path = trim_quotes(text_of(s, src));
                let symbols = match kind_child(c, "import_clause"@) {
                    Some(cl) => match kind_child(cl, "named_imports"@) {
                        Some(named) => ts_symbols(named.children@, src),
                        None => Seq::empty(),
                    },
                    None => Seq::empty(),
                };
                if path.len() > 0 {
                    seq![(path, symbols)]
                } else {
                    Seq::empty()
                }
            },
            None => Seq::empty(),
        }
    } else {
        Seq::empty()
    }
}

/// The path of a Go import spec without quotes, if it is not empty.
pub open spec fn go_spec_import(spec: SyntaxNode, src: Seq<u8>) -> Seq<(Seq<char>, Seq<Seq<char>>)> {
    let path = match field_child(spec, "path"@) {
        Some(p) => trim_char(text_of(p, src), '"'),
        None => Seq::empty(),
    };
    if path.len() > 0 {
        seq![(path, Seq::empty())]
    } else {
        Seq::empty()
    }
}

/// The imports of the specs among `specs` of a Go import list.
pub open spec fn go_spec_list(specs: Seq<SyntaxNode>, src: Seq<u8>) -> Seq<(Seq<char>, Seq<Seq<char>>)>
    decreases specs.len(),
{
    if specs.len() == 0 {
        Seq::empty()
    } else {
        go_spec_list(specs.drop_last(), src) + if specs.last().kind@ == "import_spec"@ {
            go_spec_import(specs.last(), src)
        } else {
            Seq::empty()
        }
    }
}

/// The imports a top-level Go declaration makes: those of its spec list,
/// or of its single spec.
pub open spec fn go_import(c: SyntaxNode, src: Seq<u8>) -> Seq<(Seq<char>, Seq<Seq<char>>)> {
    if c.kind@ == "import_declaration"@ {
        match kind_child(c, "import_spec_list"@) {
            Some(l) => go_spec_list(l.children@, src),
            None => match kind_child(c, "import_spec"@) {
                Some(s) => go_spec_import(s, src),
                None => Seq::empty(),
            },
        }
    } else {
        Seq::empty()
    }
}

/// The last position of `.` in `t` before `n`.
pub open spec fn last_dot(t: Seq<char>, n: int) -> Option<int>
    decreases n,
{
    if n <= 0 {
        None
    } else if t[n - 1] == '.' {
        Some(n - 1)
    } else {
        last_dot(t, n - 1)
    }
}

/// The import a top-level Java declaration makes: the imported name
/// (without `import`, `static` and `;`) and the part after its last dot.
pub open spec fn java_import(c: SyntaxNode, src: Seq<u8>) -> Seq<(Seq<char>, Seq<Seq<char>>)> {
    if c.kind@ == "import_declaration"@ {
        let cleaned = trim(trim_end_char(without_prefix(text_of(c, src), "import "@), ';'));
        if cleaned.len() > 0 {
            let name = without_prefix(cleaned, "static "@);
            match last_dot(name, name.len() as int) {
                Some(d) => seq![(name, seq![name.skip(d + 1)])],
                None => seq![(name, Seq::empty())],
            }
        } else {
            Seq::empty()
        }
    } else {
        Seq::empty()
    }
}

/// An empty symbol list.
fn no_symbols() -> (r: Vec<String>)
    ensures
        views(r@) == Seq::<Seq<char>>::empty(),
{
    let r: Vec<String> = Vec::new();
    assert(views(r@) =~= Seq::<Seq<char>>::empty());
    r
}

/// Appends one raw import.
fn push_raw(out: &mut Vec<(String, Vec<String>)>, path: &[char], symbols: Vec<String>)
    ensures
        raws_view(final(out)@) == raws_view(old(out)@).push((path@, views(symbols@))),
{
    let ghost o0 = raws_view(out@);
    out.push((string_of(path), symbols));
    assert(raws_view(out@) =~= o0.push((path@, views(symbols@))));
}

/// `t` without the prefix `p` when it has it.
fn without_prefix_exec(t: &[char], p: &str) -> (r: Vec<char>)
    ensures
        r@ == without_prefix(t@, p@),
{
    let pc = chars_of(p);
    match strip_prefix_exec(t, pc.as_slice()) {
        Some(r) => r,
        None => copy_range(t, 0, t.len()),
    }
}

/// Appends the import of a top-level Python statement.
fn python_import_exec(c: &SyntaxNode, source: &[u8], out: &mut Vec<(String, Vec<String>)>)
    ensures
        raws_view(final(out)@) == raws_view(old(out)@) + python_import(*c, source@),
{
    let ghost o0 = raws_view(out@);
    let t = node_text(c, source);
    if kind_is(c, "import_statement") {
        let w = without_prefix_exec(t.as_slice(), "import ");
        let cleaned = trimmed(w.as_slice());
        if cleaned.len() > 0 {
            push_raw(out, cleaned.as_slice(), no_symbols());
        }
    } else if kind_is(c, "import_from_statement") {
        let fp = chars_of("from ");
        match strip_prefix_exec(t.as_slice(), fp.as_slice()) {
            Some(rest) => {
                let sep = chars_of(" import ");
                proof {
                    reveal_strlit(" import ");
                }
                match find_from(rest.as_slice(), sep.as_slice(), 0) {
                    Some(idx) => {
                        assert(occurs_at(rest@, sep@, idx as int));
                        let rl = rest.len();
                        assert(idx + 8 <= rl);
                        let head = copy_range(rest.as_slice(), 0, idx);
                        let module = trimmed(head.as_slice());
                        assert(head@ =~= rest@.take(idx as int));
                        let tail = copy_range(rest.as_slice(), idx + 8, rest.len());
                        assert(tail@ =~= rest@.skip(idx + " import "@.len()));
                        let st = trimmed(tail.as_slice());
                        let comma = chars_of(",");
                        proof {
                            reveal_strlit(",");
                        }
                        let parts = split_exec(st.as_slice(), comma.as_slice());
                        let ghost sp = split_str(st@, ","@);
                        assert(cviews(parts@) =~= sp);
                        let mut syms: Vec<String> = Vec::new();
                        let mut i: usize = 0;
                        while i < parts.len()
                            invariant
                                sp == cviews(parts@),
                                i <= parts@.len(),
                                views(syms@) == nonempty_trimmed(sp.take(i as int)),
                            decreases parts@.len() - i,
                        {
                            let p = trimmed(parts[i].as_slice());
                            assert(sp.take(i + 1).drop_last() =~= sp.take(i as int));
                            if p.len() > 0 {
                                let ghost s0 = views(syms@);
                                syms.push(string_of(p.as_slice()));
                                assert(views(syms@) =~= s0.push(p@));
                            }
                            i += 1;
                        }
                        assert(sp.take(i as int) =~= sp);
                        if module.len() > 0 {
                            push_raw(out, module.as_slice(), syms);
                        }
                    },
                    None => {},
                }
            },
            None => {},
        }
    }
    assert(raws_view(out@) =~= o0 + python_import(*c, source@));
}

/// Appends the import of a top-level TypeScript/JavaScript statement.
fn ts_import_exec(c: &SyntaxNode, source: &[u8], out: &mut Vec<(String, Vec<String>)>)
    ensures
        raws_view(final(out)@) == raws_view(old(out)@) + ts_import(*c, source@),
{
    let ghost o0 = raws_view(out@);
    if kind_is(c, "import_statement") {
        match child_by_field(c, "source") {
            Some(s) => {
                let path = trim_quotes_exec(node_text(s, source).as_slice());
                let mut syms: Vec<String> = no_symbols();
                match find_child(c, "import_clause") {
                    Some(cl) => match find_child(cl, "named_imports") {
                        Some(named) => {
                            let mut i: usize = 0;
                            assert(named.children@.take(0) =~= Seq::<SyntaxNode>::empty());
                            while i < named.children.len()
                                invariant
                                    i <= named.children@.len(),
                                    views(syms@) == ts_symbols(named.children@.take(i as int), source@),
                                decreases named.children@.len() - i,
                            {
                                let it = &named.children[i];
                                assert(named.children@.take(i + 1).drop_last() =~= named.children@.take(i as int));
                                let ghost s0 = views(syms@);
                                if kind_is(it, "import_specifier") {
                                    match child_by_field(it, "name") {
                                        Some(n) => {
                                            syms.push(string_of(node_text(n, source).as_slice()));
                                            assert(views(syms@) =~= s0.push(text_of(*n, source@)));
                                        },
                                        None => {
                                            if it.children.len() > 0 {
                                                syms.push(string_of(node_text(&it.children[0], source).as_slice()));
                                                assert(views(syms@) =~= s0.push(text_of(it.children@[0], source@)));
                                            } else {
                                                assert(views(syms@) =~= s0);
                                            }
                                        },
                                    }
                                }
                                i += 1;
                                assert(views(syms@) =~= ts_symbols(named.children@.take(i as int), source@));
                            }
                            assert(named.children@.take(i as int) =~= named.children@);
                        },
                        None => {},
                    },
                    None => {},
                }
                if path.len() > 0 {
                    push_raw(out, path.as_slice(), syms);
                }
            },
            None => {},
        }
    }
    assert(raws_view(out@) =~= o0 + ts_import(*c, source@));
}

/// Appends the import of a Go import spec.
fn go_spec_exec(spec: &SyntaxNode, source: &[u8], out: &mut Vec<(String, Vec<String>)>)
    ensures
        raws_view(final(out)@) == raws_view(old(out)@) + go_spec_import(*spec, source@),
{
    let ghost o0 = raws_view(out@);
    let path = match child_by_field(spec, "path") {
        Some(p) => trim_char_exec(node_text(p, source).as_slice(), '"'),
        None => Vec::new(),
    };
    if path.len() > 0 {
        push_raw(out, path.as_slice(), no_symbols());
    }
    assert(raws_view(out@) =~= o0 + go_spec_import(*spec, source@));
}

/// Appends the imports of a top-level Go declaration.
fn go_import_exec(c: &SyntaxNode, source: &[u8], out: &mut Vec<(String, Vec<String>)>)
    ensures
        raws_view(final(out)@) == raws_view(old(out)@) + go_import(*c, source@),
{
    let ghost o0 = raws_view(out@);
    if kind_is(c, "import_declaration") {
        match find_child(c, "import_spec_list") {
            Some(l) => {
                let mut i: usize = 0;
                assert(l.children@.take(0) =~= Seq::<SyntaxNode>::empty());
                while i < l.children.len()
                    invariant
                        i <= l.children@.len(),
                        raws_view(out@) == o0 + go_spec_list(l.children@.take(i as int), source@),
                    decreases l.children@.len() - i,
                {
                    let sp = &l.children[i];
                    assert(l.children@.take(i + 1).drop_last() =~= l.children@.take(i as int));
                    if kind_is(sp, "import_spec") {
                        go_spec_exec(sp, source, out);
                    }
                    i += 1;
                    assert(raws_view(out@) =~= o0 + go_spec_list(l.children@.take(i as int), source@));
                }
                assert(l.children@.take(i as int) =~= l.children@);
            },
            None => match find_child(c, "import_spec") {
                Some(s) => go_spec_exec(s, source, out),
                None => {},
            },
        }
    }
    assert(raws_view(out@) =~= o0 + go_import(*c, source@));
}

/// Appends the import of a top-level Java declaration.
fn java_import_exec(c: &SyntaxNode, source: &[u8], out: &mut Vec<(String, Vec<String>)>)
    ensures
        raws_view(final(out)@) == raws_view(old(out)@) + java_import(*c, source@),
{
    let ghost o0 = raws_view(out@);
    if kind_is(c, "import_declaration") {
        let t = node_text(c, source);
        let w = without_prefix_exec(t.as_slice(), "import ");
        let e = trim_end_char_exec(w.as_slice(), ';');
        let cleaned = trimmed(e.as_slice());
        if cleaned.len() > 0 {
            let name = without_prefix_exec(cleaned.as_slice(), "static ");
            let mut n: usize = name.len();
            while n > 0 && name[n - 1] != '.'
                invariant
                    n <= name@.len(),
                    last_dot(name@, name@.len() as int) == last_dot(name@, n as int),
                decreases n,
            {
                n -= 1;
            }
            if n > 0 {
                let sym = copy_range(name.as_slice(), n, name.len());
                assert(sym@ =~= name@.skip(n as int));
                let mut syms: Vec<String> = Vec::new();
                syms.push(string_of(sym.as_slice()));
                assert(views(syms@) =~= seq![sym@]);
                push_raw(out, name.as_slice(), syms);
            } else {
                push_raw(out, name.as_slice(), no_symbols());
            }
        }
    }
    assert(raws_view(out@) =~= o0 + java_import(*c, source@));
}

/// The non-empty paths among `ps`, each without symbols.
pub open spec fn nonempty_paths(ps: Seq<Seq<char>>) -> Seq<(Seq<char>, Seq<Seq<char>>)>
    decreases ps.len(),
{
    if ps.len() == 0 {
        Seq::empty()
    } else {
        nonempty_paths(ps.drop_last()) + if ps.last().len() > 0 {
            seq![(ps.last(), Seq::<Seq<char>>::empty())]
        } else {
            Seq::empty()
        }
    }
}

/// The imports a top-level Rust item makes: the paths its `use` tree
/// expands to.
pub open spec fn rust_import(c: SyntaxNode, src: Seq<u8>) -> Seq<(Seq<char>, Seq<Seq<char>>)> {
    if c.kind@ == "use_declaration"@ {
        nonempty_paths(expand_use(trim(trim_end_char(without_prefix(text_of(c, src), "use "@), ';'))))
    } else {
        Seq::empty()
    }
}

/// The imports a top-level node makes in `lang`.
pub open spec fn import_of(c: SyntaxNode, src: Seq<u8>, lang: Language) -> Seq<(Seq<char>, Seq<Seq<char>>)> {
    match lang {
        Language::Rust => rust_import(c, src),
        Language::Python => python_import(c, src),
        Language::TypeScript | Language::JavaScript => ts_import(c, src),
        Language::Go => go_import(c, src),
        Language::Java => java_import(c, src),
    }
}

/// The imports the top-level nodes `cs` make, in order.
pub open spec fn imports_of(cs: Seq<SyntaxNode>, src: Seq<u8>, lang: Language) -> Seq<(Seq<char>, Seq<Seq<char>>)>
    decreases cs.len(),
{
    if cs.len() == 0 {
        Seq::empty()
    } else {
        imports_of(cs.drop_last(), src, lang) + import_of(cs.last(), src, lang)
    }
}

/// Appends the imports of a top-level Rust item.
fn rust_import_exec(c: &SyntaxNode, source: &[u8], out: &mut Vec<(String, Vec<String>)>)
    ensures
        raws_view(final(out)@) == raws_view(old(out)@) + rust_import(*c, source@),
{
    let ghost o0 = raws_view(out@);
    if kind_is(c, "use_declaration") {
        let t = node_text(c, source);
        let w = without_prefix_exec(t.as_slice(), "use ");
        let e = trim_end_char_exec(w.as_slice(), ';');
        let cleaned = trimmed(e.as_slice());
        let cs = string_of(cleaned.as_slice());
        let paths = expand_rust_use(cs.as_str());
        let ghost pv = views(paths@);
        let mut i: usize = 0;
        assert(raws_view(out@) =~= o0 + nonempty_paths(pv.take(0)));
        while i < paths.len()
            invariant
                pv == views(paths@),
                i <= paths@.len(),
                raws_view(out@) == o0 + nonempty_paths(pv.take(i as int)),
            decreases paths@.len() - i,
        {
            let pc = chars_of(paths[i].as_str());
            assert(pv.take(i + 1).drop_last() =~= pv.take(i as int));
            if pc.len() > 0 {
                push_raw(out, pc.as_slice(), no_symbols());
            }
            i += 1;
            assert(raws_view(out@) =~= o0 + nonempty_paths(pv.take(i as int)));
        }
        assert(pv.take(i as int) =~= pv);
    }
    assert(raws_view(out@) =~= o0 + rust_import(*c, source@));
}

/// The raw imports of a syntax tree: per top-level node in order, the
/// import paths it names with the symbols it imports (see `import_of`).
pub fn imports_of_tree(root: &SyntaxNode, source: &[u8], lang: Language) -> (r: Vec<(String, Vec<String>)>)
    ensures
        raws_view(r@) == imports_of(root.children@, source@, lang),
{
    let mut out: Vec<(String, Vec<String>)> = Vec::new();
    let mut i: usize = 0;
    assert(raws_view(out@) =~= imports_of(root.children@.take(0), source@, lang));
    while i < root.children.len()
        invariant
            i <= root.children@.len(),
            raws_view(out@) == imports_of(root.children@.take(i as int), source@, lang),
        decreases root.children@.len() - i,
    {
        let c = &root.children[i];
        match lang {
            Language::Rust => rust_import_exec(c, source, &mut out),
            Language::Python => python_import_exec(c, source, &mut out),
            Language::TypeScript | Language::JavaScript => ts_import_exec(c, source, &mut out),
            Language::Go => go_import_exec(c, source, &mut out),
            Language::Java => java_import_exec(c, source, &mut out),
        }
        assert(root.children@.take(i + 1).drop_last() =~= root.children@.take(i as int));
        i += 1;
    }
    assert(root.children@.take(i as int) =~= root.children@);
    out
}

/// A text with its quotes trimmed neither starts nor ends with a quote.
pub proof fn lemma_trim_quotes_ends(t: Seq<char>)
    ensures
        trim_quotes(t).len() > 0 ==> {
            let u = trim_quotes(t);
            &&& u[0] != '\'' && u[0] != '"'
            &&& u.last() != '\'' && u.last() != '"'
        },
    decreases t.len(),
{
    if t.len() > 0 && is_quote(t[0]) {
        lemma_trim_quotes_ends(t.drop_first());
    } else if t.len() > 0 && is_quote(t.last()) {
        lemma_trim_quotes_ends(t.drop_last());
    }
}

/// The import paths the nodes `cs` give in TypeScript or JavaScript are
/// module names: none is empty, and none starts or ends with a quote.
pub proof fn lemma_ts_paths_unquoted(cs: Seq<SyntaxNode>, src: Seq<u8>, lang: Language)
    requires
        lang == Language::TypeScript || lang == Language::JavaScript,
    ensures
        forall|k: int|
            0 <= k < imports_of(cs, src, lang).len() ==> {
                let p = (#[trigger] imports_of(cs, src, lang)[k]).0;
                &&& p.len() > 0
                &&& p[0] != '\'' && p[0] != '"'
                &&& p.last() != '\'' && p.last() != '"'
            },
    decreases cs.len(),
{
    if cs.len() > 0 {
        lemma_ts_paths_unquoted(cs.drop_last(), src, lang);
        let c = cs.last();
        let before = imports_of(cs.drop_last(), src, lang);
        let here = import_of(c, src, lang);
        assert(here == ts_import(c, src));
        if c.kind@ == "import_statement"@ {
            if let Some(sn) = field_child(c, "source"@) {
                lemma_trim_quotes_ends(text_of(sn, src));
            }
        }
        assert forall|k: int| 0 <= k < imports_of(cs, src, lang).len() implies {
            let p = (#[trigger] imports_of(cs, src, lang)[k]).0;
            &&& p.len() > 0
            &&& p[0] != '\'' && p[0] != '"'
            &&& p.last() != '\'' && p.last() != '"'
        } by {
            if k < before.len() {
                assert(imports_of(cs, src, lang)[k] == before[k]);
            } else {
                assert(imports_of(cs, src, lang)[k] == here[k - before.len()]);
            }
        }
    }
}

/// The path of every import that a TypeScript or JavaScript source gives
/// is the module name inside the quotes of its `from` clause: it is not
/// empty and neither starts nor ends with a quote.
pub proof fn law_ts_import_paths_are_unquoted(source: Seq<u8>, lang: Language)
    requires
        lang == Language::TypeScript || lang == Language::JavaScript,
    ensures
        forall|k: int|
            0 <= k < imports_of_source(source, lang).len() ==> {
                let p = (#[trigger] imports_of_source(source, lang)[k]).0;
                &&& p.len() > 0
                &&& p[0] != '\'' && p[0] != '"'
                &&& p.last() != '\'' && p.last() != '"'
            },
{
    if let Some(t) = crate::index::syntax::parse_of(lang, source) {
        lemma_ts_paths_unquoted(t.children@, source, lang);
    }
}

/// The raw imports of a source file: those of its syntax tree (see
/// `parse_of`), none when it does not parse.
pub open spec fn imports_of_source(source: Seq<u8>, lang: Language) -> Seq<(Seq<char>, Seq<Seq<char>>)> {
    match crate::index::syntax::parse_of(lang, source) {
        Some(t) => imports_of(t.children@, source, lang),
        None => Seq::empty(),
    }
}

/// The raw imports of a source file: nothing when it does not parse, else
/// those of its syntax tree (see `imports_of_tree`).
pub fn extract_imports(source: &[u8], lang: Language) -> (r: Vec<(String, Vec<String>)>)
    ensures
        raws_view(r@) == imports_of_source(source@, lang),
{
    match parse_source(source, lang) {
        Some(tree) => imports_of_tree(&tree, source, lang),
        None => Vec::new(),
    }
}

} // verus!
