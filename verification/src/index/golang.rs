//! Go skeletons: the entries of each top-level declaration, which
//! functions are tests, and the doc comment line of a declaration.
use vstd::prelude::*;

use crate::index::api::{
    go_params_result, go_params_result_exec, push_text, text_after, text_after_exec, text_or,
    text_or_exec,
};
use crate::index::outline::{
    entry_at, entry_opt, new_entry, opt_entries, push_entry, push_opt, with_children,
};
use crate::index::skeleton::{EntryView, Section, SkeletonEntry};
use crate::index::syntax::{
    child_by_field, deref_opt, field_child, find_child, kind_child, kind_is, lemma_fits_below,
    node_text, rows_fit, text_of, SyntaxNode,
};
use crate::index::{line_range, range_text, truncate, truncated, FIELD_TRUNCATE_THRESHOLD};
use crate::text::{
    chars_of, has_prefix, push_all, push_str, starts_with, strip_prefix, strip_prefix_exec,
    string_of, trim, trim_char, trim_char_exec, trimmed, views,
};

verus! {

// ---- entries ----

/// The path of an import spec, without its quotes.
pub open spec fn go_import_path(sp: SyntaxNode, src: Seq<u8>) -> Seq<char> {
    match field_child(sp, "path"@) {
        Some(p) => trim_char(text_of(p, src), '"'),
        None => trim_char(text_of(sp, src), '"'),
    }
}

/// The import entries of the specs among `cs`, one per spec.
pub open spec fn go_spec_imports(cs: Seq<SyntaxNode>, src: Seq<u8>) -> Seq<EntryView>
    decreases cs.len(),
{
    if cs.len() == 0 {
        Seq::empty()
    } else {
        go_spec_imports(cs.drop_last(), src) + if cs.last().kind@ == "import_spec"@ {
            seq![entry_at(Section::Import, cs.last(), go_import_path(cs.last(), src))]
        } else {
            Seq::empty()
        }
    }
}

/// The entries of an import declaration: one per spec of a list, or one
/// for a single spec.
pub open spec fn go_imports(n: SyntaxNode, src: Seq<u8>) -> Seq<EntryView> {
    match kind_child(n, "import_spec_list"@) {
        Some(l) => go_spec_imports(l.children@, src),
        None => match kind_child(n, "import_spec"@) {
            Some(sp) => seq![entry_at(Section::Import, n, go_import_path(sp, src))],
            None => Seq::empty(),
        },
    }
}

/// The entry of a function: name, parameters and result.
pub open spec fn go_function(n: SyntaxNode, src: Seq<u8>) -> Option<EntryView> {
    match field_child(n, "name"@) {
        Some(m) => Some(entry_at(Section::Function, n, text_of(m, src) + go_params_result(n, src))),
        None => None,
    }
}

/// The entry of a method: receiver, name, parameters and result.
pub open spec fn go_method(n: SyntaxNode, src: Seq<u8>) -> Option<EntryView> {
    match field_child(n, "receiver"@) {
        Some(r) => match field_child(n, "name"@) {
            Some(m) => Some(
                entry_at(
                    Section::Impl,
                    n,
                    text_of(r, src) + " "@ + text_of(m, src) + go_params_result(n, src),
                ),
            ),
            None => None,
        },
        None => None,
    }
}

/// The field declarations among `cs`, trimmed.
pub open spec fn go_field_texts(cs: Seq<SyntaxNode>, src: Seq<u8>) -> Seq<Seq<char>>
    decreases cs.len(),
{
    if cs.len() == 0 {
        Seq::empty()
    } else {
        go_field_texts(cs.drop_last(), src) + if cs.last().kind@ == "field_declaration"@ {
            seq![trim(text_of(cs.last(), src))]
        } else {
            Seq::empty()
        }
    }
}

/// The first fields of a struct type, and "..." when there are more.
pub open spec fn go_struct_fields(t: SyntaxNode, src: Seq<u8>) -> Seq<Seq<char>> {
    match kind_child(t, "field_declaration_list"@) {
        Some(l) => {
            let fs = go_field_texts(l.children@, src);
            if fs.len() > FIELD_TRUNCATE_THRESHOLD {
                fs.take(FIELD_TRUNCATE_THRESHOLD as int).push("..."@)
            } else {
                fs
            }
        },
        None => Seq::empty(),
    }
}

/// The line of one member of an interface, if it is a method or a type.
pub open spec fn go_interface_member(c: SyntaxNode, src: Seq<u8>) -> Seq<Seq<char>> {
    let lr = range_text((c.start_row + 1) as nat, (c.end_row + 1) as nat);
    if c.kind@ == "method_elem"@ {
        seq![text_or(field_child(c, "name"@), src, "_"@) + go_params_result(c, src) + " "@ + lr]
    } else if c.kind@ == "type_elem"@ {
        seq![trim(text_of(c, src)) + " "@ + lr]
    } else {
        Seq::empty()
    }
}

/// The lines of the members `cs` of an interface.
pub open spec fn go_interface_members(cs: Seq<SyntaxNode>, src: Seq<u8>) -> Seq<Seq<char>>
    decreases cs.len(),
{
    if cs.len() == 0 {
        Seq::empty()
    } else {
        go_interface_members(cs.drop_last(), src) + go_interface_member(cs.last(), src)
    }
}

/// The entry of a type spec: a struct with its fields, an interface with
/// its members, or another type with its definition cut to 60 characters.
pub open spec fn go_type_spec(n: SyntaxNode, src: Seq<u8>) -> Option<EntryView> {
    match field_child(n, "name"@) {
        Some(m) => match field_child(n, "type"@) {
            Some(t) => {
                let name = text_of(m, src);
                if t.kind@ == "struct_type"@ {
                    Some(
                        with_children(
                            entry_at(Section::Type, n, "struct "@ + name),
                            go_struct_fields(t, src),
                        ),
                    )
                } else if t.kind@ == "interface_type"@ {
                    Some(
                        with_children(
                            entry_at(Section::Trait, n, name),
                            go_interface_members(t.children@, src),
                        ),
                    )
                } else {
                    Some(
                        entry_at(
                            Section::Type,
                            n,
                            "type "@ + name + " "@ + truncated(text_of(t, src), 60),
                        ),
                    )
                }
            },
            None => None,
        },
        None => None,
    }
}

/// The entry of a type alias.
pub open spec fn go_type_alias(n: SyntaxNode, src: Seq<u8>) -> Option<EntryView> {
    match field_child(n, "name"@) {
        Some(m) => Some(
            entry_at(
                Section::Type,
                n,
                "type "@ + text_of(m, src) + " = "@ + text_or(field_child(n, "type"@), src, "_"@),
            ),
        ),
        None => None,
    }
}

/// The entries of the specs and aliases among `cs` of a type declaration.
pub open spec fn go_types(cs: Seq<SyntaxNode>, src: Seq<u8>) -> Seq<EntryView>
    decreases cs.len(),
{
    if cs.len() == 0 {
        Seq::empty()
    } else {
        go_types(cs.drop_last(), src) + if cs.last().kind@ == "type_spec"@ {
            opt_entries(go_type_spec(cs.last(), src))
        } else if cs.last().kind@ == "type_alias"@ {
            opt_entries(go_type_alias(cs.last(), src))
        } else {
            Seq::empty()
        }
    }
}

/// The constant entries of the specs of kind `k` among `cs`: name, and
/// type when given, after `prefix`.
pub open spec fn go_specs(cs: Seq<SyntaxNode>, k: Seq<char>, prefix: Seq<char>, src: Seq<u8>) -> Seq<
    EntryView,
>
    decreases cs.len(),
{
    if cs.len() == 0 {
        Seq::empty()
    } else {
        let sp = cs.last();
        go_specs(cs.drop_last(), k, prefix, src) + if sp.kind@ == k {
            match field_child(sp, "name"@) {
                Some(m) => seq![
                    entry_at(
                        Section::Constant,
                        sp,
                        prefix + text_of(m, src) + text_after(field_child(sp, "type"@), src, " "@),
                    ),
                ],
                None => Seq::empty(),
            }
        } else {
            Seq::empty()
        }
    }
}

/// The entries of a `const` or `var` declaration, from its spec list or
/// its own specs.
pub open spec fn go_const_var(n: SyntaxNode, src: Seq<u8>) -> Seq<EntryView> {
    let is_var = n.kind@ == "var_declaration"@;
    let k = if is_var {
        "var_spec"@
    } else {
        "const_spec"@
    };
    let list = if is_var {
        "var_spec_list"@
    } else {
        "const_spec_list"@
    };
    let prefix = if is_var {
        "var "@
    } else {
        Seq::empty()
    };
    match kind_child(n, list) {
        Some(l) => go_specs(l.children@, k, prefix, src),
        None => go_specs(n.children@, k, prefix, src),
    }
}

/// The entries of a top-level Go declaration.
pub open spec fn go_entries(c: SyntaxNode, src: Seq<u8>) -> Seq<EntryView> {
    let k = c.kind@;
    if k == "import_declaration"@ {
        go_imports(c, src)
    } else if k == "type_declaration"@ {
        go_types(c.children@, src)
    } else if k == "const_declaration"@ || k == "var_declaration"@ {
        go_const_var(c, src)
    } else if k == "function_declaration"@ {
        opt_entries(go_function(c, src))
    } else if k == "method_declaration"@ {
        opt_entries(go_method(c, src))
    } else {
        Seq::empty()
    }
}

// ---- tests and docs ----

/// A test: a function named `Test..`, `Benchmark..` or `Example..`.
pub open spec fn go_is_test(c: SyntaxNode, src: Seq<u8>) -> bool {
    c.kind@ == "function_declaration"@ && match field_child(c, "name"@) {
        Some(m) => starts_with(text_of(m, src), "Test"@) || starts_with(text_of(m, src), "Benchmark"@)
            || starts_with(text_of(m, src), "Example"@),
        None => false,
    }
}

/// A `//` comment.
pub open spec fn go_line_comment(c: SyntaxNode, src: Seq<u8>) -> bool {
    c.kind@ == "comment"@ && starts_with(text_of(c, src), "//"@)
}

/// The first of the `//` comments right before position `i` of `cs`
/// (position `i` itself when there are none).
pub open spec fn go_comment_run(cs: Seq<SyntaxNode>, i: int, src: Seq<u8>) -> int
    decreases i,
{
    if i > 0 && i <= cs.len() && go_line_comment(cs[i - 1], src) {
        go_comment_run(cs, i - 1, src)
    } else {
        i
    }
}

/// A comment without its `//` and one space after it; none when nothing is
/// left.
pub open spec fn go_strip_doc(t: Seq<char>) -> Option<Seq<char>> {
    let s = match strip_prefix(t, "//"@) {
        Some(r) => r,
        None => t,
    };
    let u = match strip_prefix(s, " "@) {
        Some(r) => r,
        None => s,
    };
    if u.len() == 0 {
        None
    } else {
        Some(u)
    }
}

/// The doc line of the declaration at position `i` of `cs`: the first of
/// the `//` comments right before it, when the last of them ends on the
/// line before it, stripped and cut to 120 characters.
pub open spec fn go_doc_line(cs: Seq<SyntaxNode>, i: int, src: Seq<u8>) -> Option<Seq<char>> {
    let j = go_comment_run(cs, i, src);
    if j == i {
        None
    } else if cs[i - 1].end_row + 1 < cs[i].start_row {
        None
    } else {
        match go_strip_doc(text_of(cs[j], src)) {
            Some(d) => Some(truncated(d, 120)),
            None => None,
        }
    }
}

// ---- computing them ----


/// The path of an import spec.
fn go_import_path_exec(sp: &SyntaxNode, source: &[u8]) -> (r: Vec<char>)
    ensures
        r@ == go_import_path(*sp, source@),
{
    match child_by_field(sp, "path") {
        Some(p) => trim_char_exec(node_text(p, source).as_slice(), '"'),
        None => trim_char_exec(node_text(sp, source).as_slice(), '"'),
    }
}

/// Appends the entries of an import declaration.
fn push_go_imports(v: &mut Vec<SkeletonEntry>, n: &SyntaxNode, source: &[u8])
    requires
        rows_fit(*n),
    ensures
        crate::index::skeleton::entry_views(final(v)@) == crate::index::skeleton::entry_views(
            old(v)@,
        ) + go_imports(*n, source@),
{
    let ghost v0 = crate::index::skeleton::entry_views(v@);
    proof {
        lemma_fits_below(*n);
    }
    match find_child(n, "import_spec_list") {
        Some(l) => {
            proof {
                lemma_fits_below(*l);
            }
            let mut i: usize = 0;
            while i < l.children.len()
                invariant
                    i <= l.children@.len(),
                    forall|k: int| 0 <= k < l.children@.len() ==> #[trigger] rows_fit(l.children@[k]),
                    crate::index::skeleton::entry_views(v@) == v0 + go_spec_imports(
                        l.children@.take(i as int),
                        source@,
                    ),
                decreases l.children@.len() - i,
            {
                assert(l.children@.take(i + 1).drop_last() =~= l.children@.take(i as int));
                let c = &l.children[i];
                if kind_is(c, "import_spec") {
                    let path = go_import_path_exec(c, source);
                    assert(rows_fit(l.children@[i as int]));
                    push_entry(v, new_entry(Section::Import, c, path.as_slice()));
                }
                i += 1;
            }
            assert(l.children@.take(i as int) =~= l.children@);
        },
        None => match find_child(n, "import_spec") {
            Some(sp) => {
                let path = go_import_path_exec(sp, source);
                push_entry(v, new_entry(Section::Import, n, path.as_slice()));
            },
            None => {},
        },
    }
    assert(crate::index::skeleton::entry_views(v@) =~= v0 + go_imports(*n, source@));
}

/// The entry of a function declaration.
fn go_function_exec(n: &SyntaxNode, source: &[u8]) -> (r: Option<SkeletonEntry>)
    requires
        rows_fit(*n),
    ensures
        entry_opt(r) == go_function(*n, source@),
{
    match child_by_field(n, "name") {
        Some(m) => {
            let mut t = node_text(m, source);
            push_all(&mut t, go_params_result_exec(n, source).as_slice());
            Some(new_entry(Section::Function, n, t.as_slice()))
        },
        None => None,
    }
}

/// The entry of a method declaration.
fn go_method_exec(n: &SyntaxNode, source: &[u8]) -> (r: Option<SkeletonEntry>)
    requires
        rows_fit(*n),
    ensures
        entry_opt(r) == go_method(*n, source@),
{
    match child_by_field(n, "receiver") {
        Some(r) => match child_by_field(n, "name") {
            Some(m) => {
                let mut t = node_text(r, source);
                push_str(&mut t, " ");
                push_all(&mut t, node_text(m, source).as_slice());
                push_all(&mut t, go_params_result_exec(n, source).as_slice());
                Some(new_entry(Section::Impl, n, t.as_slice()))
            },
            None => None,
        },
        None => None,
    }
}

/// The first fields of a struct type, and "..." when there are more.
fn go_struct_fields_exec(t: &SyntaxNode, source: &[u8]) -> (r: Vec<String>)
    ensures
        views(r@) == go_struct_fields(*t, source@),
{
    match find_child(t, "field_declaration_list") {
        None => {
            let r: Vec<String> = Vec::new();
            assert(views(r@) =~= Seq::<Seq<char>>::empty());
            r
        },
        Some(l) => {
            let mut fields: Vec<String> = Vec::new();
            let mut total: usize = 0;
            let mut i: usize = 0;
            assert(views(fields@) =~= Seq::<Seq<char>>::empty());
            while i < l.children.len()
                invariant
                    i <= l.children@.len(),
                    total == go_field_texts(l.children@.take(i as int), source@).len(),
                    total <= i,
                    views(fields@) == go_field_texts(l.children@.take(i as int), source@).take(
                        if total <= FIELD_TRUNCATE_THRESHOLD {
                            total as int
                        } else {
                            FIELD_TRUNCATE_THRESHOLD as int
                        },
                    ),
                decreases l.children@.len() - i,
            {
                let ghost before = go_field_texts(l.children@.take(i as int), source@);
                assert(l.children@.take(i + 1).drop_last() =~= l.children@.take(i as int));
                let c = &l.children[i];
                if kind_is(c, "field_declaration") {
                    total += 1;
                    let ghost after = before.push(trim(text_of(*c, source@)));
                    assert(go_field_texts(l.children@.take(i + 1), source@) == after);
                    if total <= FIELD_TRUNCATE_THRESHOLD {
                        let t = trimmed(node_text(c, source).as_slice());
                        push_text(&mut fields, t.as_slice());
                        assert(after.take(total as int) =~= before.take((total - 1) as int).push(
                            trim(text_of(*c, source@)),
                        ));
                    } else {
                        assert(after.take(FIELD_TRUNCATE_THRESHOLD as int) =~= before.take(
                            FIELD_TRUNCATE_THRESHOLD as int,
                        ));
                    }
                }
                i += 1;
            }
            assert(l.children@.take(i as int) =~= l.children@);
            let ghost fs = go_field_texts(l.children@, source@);
            if total > FIELD_TRUNCATE_THRESHOLD {
                push_text(&mut fields, chars_of("...").as_slice());
            } else {
                assert(fs.take(total as int) =~= fs);
            }
            fields
        },
    }
}

/// The line of one interface member, if it is one.
fn push_go_interface_member(v: &mut Vec<String>, c: &SyntaxNode, source: &[u8])
    requires
        rows_fit(*c),
    ensures
        views(final(v)@) == views(old(v)@) + go_interface_member(*c, source@),
{
    let ghost v0 = views(v@);
    if kind_is(c, "method_elem") {
        let mut t = text_or_exec(child_by_field(c, "name"), source, "_");
        push_all(&mut t, go_params_result_exec(c, source).as_slice());
        push_str(&mut t, " ");
        let lr = line_range(c.start_row + 1, c.end_row + 1);
        push_all(&mut t, chars_of(lr.as_str()).as_slice());
        push_text(v, t.as_slice());
    } else if kind_is(c, "type_elem") {
        let mut t = trimmed(node_text(c, source).as_slice());
        push_str(&mut t, " ");
        let lr = line_range(c.start_row + 1, c.end_row + 1);
        push_all(&mut t, chars_of(lr.as_str()).as_slice());
        push_text(v, t.as_slice());
    }
    assert(views(v@) =~= v0 + go_interface_member(*c, source@));
}

/// The entry of a type spec.
fn go_type_spec_exec(n: &SyntaxNode, source: &[u8]) -> (r: Option<SkeletonEntry>)
    requires
        rows_fit(*n),
    ensures
        entry_opt(r) == go_type_spec(*n, source@),
{
    proof {
        lemma_fits_below(*n);
    }
    let name = match child_by_field(n, "name") {
        Some(m) => node_text(m, source),
        None => {
            return None;
        },
    };
    let t = match child_by_field(n, "type") {
        Some(t) => t,
        None => {
            return None;
        },
    };
    if kind_is(t, "struct_type") {
        let mut text = chars_of("struct ");
        push_all(&mut text, name.as_slice());
        let mut e = new_entry(Section::Type, n, text.as_slice());
        e.children = go_struct_fields_exec(t, source);
        Some(e)
    } else if kind_is(t, "interface_type") {
        proof {
            lemma_fits_below(*t);
        }
        let mut members: Vec<String> = Vec::new();
        let mut i: usize = 0;
        while i < t.children.len()
            invariant
                i <= t.children@.len(),
                forall|k: int| 0 <= k < t.children@.len() ==> #[trigger] rows_fit(t.children@[k]),
                views(members@) == go_interface_members(t.children@.take(i as int), source@),
            decreases t.children@.len() - i,
        {
            assert(t.children@.take(i + 1).drop_last() =~= t.children@.take(i as int));
            push_go_interface_member(&mut members, &t.children[i], source);
            i += 1;
        }
        assert(t.children@.take(i as int) =~= t.children@);
        let mut e = new_entry(Section::Trait, n, name.as_slice());
        e.children = members;
        Some(e)
    } else {
        let mut text = chars_of("type ");
        push_all(&mut text, name.as_slice());
        push_str(&mut text, " ");
        let def = string_of(node_text(t, source).as_slice());
        let cut = truncate(def.as_str(), 60);
        push_all(&mut text, chars_of(cut.as_str()).as_slice());
        Some(new_entry(Section::Type, n, text.as_slice()))
    }
}

/// The entry of a type alias.
fn go_type_alias_exec(n: &SyntaxNode, source: &[u8]) -> (r: Option<SkeletonEntry>)
    requires
        rows_fit(*n),
    ensures
        entry_opt(r) == go_type_alias(*n, source@),
{
    match child_by_field(n, "name") {
        Some(m) => {
            let mut text = chars_of("type ");
            push_all(&mut text, node_text(m, source).as_slice());
            push_str(&mut text, " = ");
            push_all(&mut text, text_or_exec(child_by_field(n, "type"), source, "_").as_slice());
            Some(new_entry(Section::Type, n, text.as_slice()))
        },
        None => None,
    }
}


/// Appends the entries of a type declaration.
fn push_go_types(v: &mut Vec<SkeletonEntry>, n: &SyntaxNode, source: &[u8])
    requires
        rows_fit(*n),
    ensures
        crate::index::skeleton::entry_views(final(v)@) == crate::index::skeleton::entry_views(
            old(v)@,
        ) + go_types(n.children@, source@),
{
    let ghost v0 = crate::index::skeleton::entry_views(v@);
    proof {
        lemma_fits_below(*n);
    }
    let mut i: usize = 0;
    while i < n.children.len()
        invariant
            i <= n.children@.len(),
            forall|k: int| 0 <= k < n.children@.len() ==> #[trigger] rows_fit(n.children@[k]),
            crate::index::skeleton::entry_views(v@) == v0 + go_types(
                n.children@.take(i as int),
                source@,
            ),
        decreases n.children@.len() - i,
    {
        assert(n.children@.take(i + 1).drop_last() =~= n.children@.take(i as int));
        let c = &n.children[i];
        assert(rows_fit(n.children@[i as int]));
        if kind_is(c, "type_spec") {
            push_opt(v, go_type_spec_exec(c, source));
        } else if kind_is(c, "type_alias") {
            push_opt(v, go_type_alias_exec(c, source));
        }
        i += 1;
    }
    assert(n.children@.take(i as int) =~= n.children@);
}

/// Appends the constant entries of the specs of kind `k` among the
/// children of `n`.
fn push_go_specs(v: &mut Vec<SkeletonEntry>, n: &SyntaxNode, k: &str, prefix: &str, source: &[u8])
    requires
        rows_fit(*n),
    ensures
        crate::index::skeleton::entry_views(final(v)@) == crate::index::skeleton::entry_views(
            old(v)@,
        ) + go_specs(n.children@, k@, prefix@, source@),
{
    let ghost v0 = crate::index::skeleton::entry_views(v@);
    proof {
        lemma_fits_below(*n);
    }
    let mut i: usize = 0;
    while i < n.children.len()
        invariant
            i <= n.children@.len(),
            forall|j: int| 0 <= j < n.children@.len() ==> #[trigger] rows_fit(n.children@[j]),
            crate::index::skeleton::entry_views(v@) == v0 + go_specs(
                n.children@.take(i as int),
                k@,
                prefix@,
                source@,
            ),
        decreases n.children@.len() - i,
    {
        assert(n.children@.take(i + 1).drop_last() =~= n.children@.take(i as int));
        let sp = &n.children[i];
        assert(rows_fit(n.children@[i as int]));
        if kind_is(sp, k) {
            match child_by_field(sp, "name") {
                Some(m) => {
                    let mut t = chars_of(prefix);
                    push_all(&mut t, node_text(m, source).as_slice());
                    push_all(&mut t, text_after_exec(child_by_field(sp, "type"), source, " ").as_slice());
                    push_entry(v, new_entry(Section::Constant, sp, t.as_slice()));
                },
                None => {},
            }
        }
        i += 1;
    }
    assert(n.children@.take(i as int) =~= n.children@);
}

/// Appends the entries of a `const` or `var` declaration.
fn push_go_const_var(v: &mut Vec<SkeletonEntry>, n: &SyntaxNode, source: &[u8])
    requires
        rows_fit(*n),
    ensures
        crate::index::skeleton::entry_views(final(v)@) == crate::index::skeleton::entry_views(
            old(v)@,
        ) + go_const_var(*n, source@),
{
    proof {
        lemma_fits_below(*n);
        reveal_strlit("");
    }
    let is_var = kind_is(n, "var_declaration");
    let k = if is_var {
        "var_spec"
    } else {
        "const_spec"
    };
    let list = if is_var {
        "var_spec_list"
    } else {
        "const_spec_list"
    };
    let prefix = if is_var {
        "var "
    } else {
        ""
    };
    assert(prefix@ == (if is_var {
        "var "@
    } else {
        Seq::<char>::empty()
    }));
    match find_child(n, list) {
        Some(l) => push_go_specs(v, l, k, prefix, source),
        None => push_go_specs(v, n, k, prefix, source),
    }
}

/// Appends the entries of a top-level Go declaration.
pub fn push_go_entries(v: &mut Vec<SkeletonEntry>, c: &SyntaxNode, source: &[u8])
    requires
        rows_fit(*c),
    ensures
        crate::index::skeleton::entry_views(final(v)@) == crate::index::skeleton::entry_views(
            old(v)@,
        ) + go_entries(*c, source@),
{
    let ghost v0 = crate::index::skeleton::entry_views(v@);
    if kind_is(c, "import_declaration") {
        push_go_imports(v, c, source);
    } else if kind_is(c, "type_declaration") {
        push_go_types(v, c, source);
    } else if kind_is(c, "const_declaration") || kind_is(c, "var_declaration") {
        push_go_const_var(v, c, source);
    } else if kind_is(c, "function_declaration") {
        push_opt(v, go_function_exec(c, source));
    } else if kind_is(c, "method_declaration") {
        push_opt(v, go_method_exec(c, source));
    }
    assert(crate::index::skeleton::entry_views(v@) =~= v0 + go_entries(*c, source@));
}

/// Whether a top-level declaration is a test.
pub fn go_is_test_exec(c: &SyntaxNode, source: &[u8]) -> (b: bool)
    ensures
        b == go_is_test(*c, source@),
{
    if !kind_is(c, "function_declaration") {
        return false;
    }
    match child_by_field(c, "name") {
        Some(m) => {
            let t = node_text(m, source);
            has_prefix(t.as_slice(), chars_of("Test").as_slice()) || has_prefix(
                t.as_slice(),
                chars_of("Benchmark").as_slice(),
            ) || has_prefix(t.as_slice(), chars_of("Example").as_slice())
        },
        None => false,
    }
}

/// The doc line of the declaration at position `i` of `cs`.
pub fn go_doc_line_exec(cs: &[SyntaxNode], i: usize, source: &[u8]) -> (r: Option<Vec<char>>)
    requires
        i < cs.len(),
    ensures
        match r {
            Some(d) => go_doc_line(cs@, i as int, source@) == Some(d@),
            None => go_doc_line(cs@, i as int, source@) is None,
        },
{
    let slashes = chars_of("//");
    let mut j: usize = i;
    while j > 0 && kind_is(&cs[j - 1], "comment") && has_prefix(
        node_text(&cs[j - 1], source).as_slice(),
        slashes.as_slice(),
    )
        invariant
            j <= i < cs.len(),
            slashes@ == "//"@,
            go_comment_run(cs@, i as int, source@) == go_comment_run(cs@, j as int, source@),
        decreases j,
    {
        j -= 1;
    }
    if j == i {
        return None;
    }
    if cs[i - 1].end_row < cs[i].start_row && cs[i - 1].end_row + 1 < cs[i].start_row {
        return None;
    }
    let t = node_text(&cs[j], source);
    let s = match strip_prefix_exec(t.as_slice(), slashes.as_slice()) {
        Some(r) => r,
        None => t,
    };
    let u = match strip_prefix_exec(s.as_slice(), chars_of(" ").as_slice()) {
        Some(r) => r,
        None => s,
    };
    if u.len() == 0 {
        return None;
    }
    let us = string_of(u.as_slice());
    let c = truncate(us.as_str(), 120);
    Some(chars_of(c.as_str()))
}

} // verus!
