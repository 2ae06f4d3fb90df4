//! Java skeletons: the entry of each top-level declaration and the doc
//! comment line of a declaration.
use vstd::prelude::*;

use crate::index::api::{
    java_method_sig, java_method_sig_exec, java_modifiers, java_modifiers_exec, push_text, text_or,
    text_or_exec,
};
use crate::index::body::{analyze_body, body_lines, lemma_body_lines};
use crate::index::outline::{
    entry_at, entry_opt, indented, new_entry, opt_entries, with_children,
};
use crate::index::skeleton::{EntryView, Section, SkeletonEntry};
use crate::index::syntax::{
    child_by_field, deref_opt, field_child, find_child, first_child, kind_child, kind_is,
    lemma_fits_below, node_text, rows_fit, text_of, SyntaxNode,
};
use crate::index::typescript::{first_doc_text, first_doc_text_exec};
use crate::index::{line_range, range_text, truncate, truncated, Language, FIELD_TRUNCATE_THRESHOLD};
use crate::text::{
    chars_of, has_prefix, lines, push_all, push_str, replace_all, replace_exec, starts_with,
    strip_prefix, strip_prefix_exec, string_of, trim, trim_end_char, trim_end_char_exec, trimmed,
    views,
};

verus! {

// ---- entries ----

/// `rest` after the modifiers `mods` and a space, or alone when there are
/// none.
pub open spec fn prefixed(mods: Seq<char>, rest: Seq<char>) -> Seq<char> {
    if mods.len() == 0 {
        rest
    } else {
        mods + " "@ + rest
    }
}

/// A statement's text without the keyword `kw` before it and `;` after
/// it, trimmed.
pub open spec fn java_stmt_text(n: SyntaxNode, src: Seq<u8>, kw: Seq<char>) -> Seq<char> {
    let t = text_of(n, src);
    trim(
        trim_end_char(
            match strip_prefix(t, kw) {
                Some(r) => r,
                None => t,
            },
            ';',
        ),
    )
}

/// The text of an import, with `.` written `::`.
pub open spec fn java_import_text(n: SyntaxNode, src: Seq<u8>) -> Seq<char> {
    replace_all(java_stmt_text(n, src, "import "@), "."@, "::"@)
}

/// The line range of a node.
pub open spec fn node_range(c: SyntaxNode) -> Seq<char> {
    range_text((c.start_row + 1) as nat, (c.end_row + 1) as nat)
}

/// The text of a field: modifiers, type (or `_`) and the name of its first
/// declarator (or `_`).
pub open spec fn java_field_text(n: SyntaxNode, src: Seq<u8>) -> Seq<char> {
    let name = match kind_child(n, "variable_declarator"@) {
        Some(d) => text_or(field_child(d, "name"@), src, "_"@),
        None => "_"@,
    };
    prefixed(java_modifiers(n, src), text_or(field_child(n, "type"@), src, "_"@) + " "@ + name)
}

/// The member lines `acc` with one more member of a class body: a method
/// or constructor with its body summary, or a field while fewer than the
/// limit of lines are listed.
pub open spec fn java_member_step(acc: Seq<Seq<char>>, c: SyntaxNode, src: Seq<u8>) -> Seq<Seq<char>> {
    if c.kind@ == "method_declaration"@ || c.kind@ == "constructor_declaration"@ {
        acc.push(java_method_sig(c, src) + " "@ + node_range(c)) + indented(
            body_lines(c, src, Language::Java),
            "  "@,
        )
    } else if c.kind@ == "field_declaration"@ {
        if acc.len() < FIELD_TRUNCATE_THRESHOLD {
            acc.push(java_field_text(c, src) + " "@ + node_range(c))
        } else {
            acc
        }
    } else {
        acc
    }
}

/// The member lines of the members `cs` of a class body.
pub open spec fn java_members(cs: Seq<SyntaxNode>, src: Seq<u8>) -> Seq<Seq<char>>
    decreases cs.len(),
{
    if cs.len() == 0 {
        Seq::empty()
    } else {
        java_member_step(java_members(cs.drop_last(), src), cs.last(), src)
    }
}

/// ` extends ` and the superclass's type name, if there is one.
pub open spec fn java_superclass(n: SyntaxNode, src: Seq<u8>) -> Seq<char> {
    match field_child(n, "superclass"@) {
        Some(s) => " extends "@ + match kind_child(s, "type_identifier"@) {
            Some(t) => text_of(t, src),
            None => text_of(s, src),
        },
        None => Seq::empty(),
    }
}

/// The entry of a class, with its members under it.
pub open spec fn java_class(n: SyntaxNode, src: Seq<u8>) -> Option<EntryView> {
    match field_child(n, "name"@) {
        Some(m) => Some(
            with_children(
                entry_at(
                    Section::Class,
                    n,
                    prefixed(
                        java_modifiers(n, src),
                        "class "@ + text_of(m, src) + java_superclass(n, src),
                    ),
                ),
                match field_child(n, "body"@) {
                    Some(b) => java_members(b.children@, src),
                    None => Seq::empty(),
                },
            ),
        ),
        None => None,
    }
}

/// The signatures of the methods and constants among `cs` of an interface.
pub open spec fn java_interface_members(cs: Seq<SyntaxNode>, src: Seq<u8>) -> Seq<Seq<char>>
    decreases cs.len(),
{
    if cs.len() == 0 {
        Seq::empty()
    } else {
        let c = cs.last();
        java_interface_members(cs.drop_last(), src) + if c.kind@ == "method_declaration"@ || c.kind@
            == "constant_declaration"@ {
            seq![java_method_sig(c, src) + " "@ + node_range(c)]
        } else {
            Seq::empty()
        }
    }
}

/// The entry of an interface, with its members under it.
pub open spec fn java_interface(n: SyntaxNode, src: Seq<u8>) -> Option<EntryView> {
    match field_child(n, "name"@) {
        Some(m) => Some(
            with_children(
                entry_at(
                    Section::Trait,
                    n,
                    prefixed(java_modifiers(n, src), "interface "@ + text_of(m, src)),
                ),
                match field_child(n, "body"@) {
                    Some(b) => java_interface_members(b.children@, src),
                    None => Seq::empty(),
                },
            ),
        ),
        None => None,
    }
}

/// The constants and the member lines of an enum body's children `cs`.
pub open spec fn java_enum_parts(cs: Seq<SyntaxNode>, src: Seq<u8>) -> (Seq<Seq<char>>, Seq<Seq<char>>)
    decreases cs.len(),
{
    if cs.len() == 0 {
        (Seq::empty(), Seq::empty())
    } else {
        let (consts, members) = java_enum_parts(cs.drop_last(), src);
        let c = cs.last();
        if c.kind@ == "enum_constant"@ {
            (consts.push(text_or(field_child(c, "name"@), src, "_"@)), members)
        } else if c.kind@ == "enum_body_declarations"@ {
            (consts, java_fold(members, c.children@, src))
        } else {
            (consts, members)
        }
    }
}

/// The member lines `acc` with the members `cs` added in order.
pub open spec fn java_fold(acc: Seq<Seq<char>>, cs: Seq<SyntaxNode>, src: Seq<u8>) -> Seq<Seq<char>>
    decreases cs.len(),
{
    if cs.len() == 0 {
        acc
    } else {
        java_member_step(java_fold(acc, cs.drop_last(), src), cs.last(), src)
    }
}

/// The entry of an enum: its constants, then its members.
pub open spec fn java_enum(n: SyntaxNode, src: Seq<u8>) -> Option<EntryView> {
    match field_child(n, "name"@) {
        Some(m) => match field_child(n, "body"@) {
            Some(b) => {
                let (consts, members) = java_enum_parts(b.children@, src);
                Some(
                    with_children(
                        entry_at(
                            Section::Type,
                            n,
                            prefixed(java_modifiers(n, src), "enum "@ + text_of(m, src)),
                        ),
                        consts + members,
                    ),
                )
            },
            None => None,
        },
        None => None,
    }
}

/// The entry of a record: name and components.
pub open spec fn java_record(n: SyntaxNode, src: Seq<u8>) -> Option<EntryView> {
    match field_child(n, "name"@) {
        Some(m) => Some(
            entry_at(
                Section::Type,
                n,
                prefixed(
                    java_modifiers(n, src),
                    "record "@ + text_of(m, src) + text_or(
                        kind_child(n, "formal_parameters"@),
                        src,
                        "()"@,
                    ),
                ),
            ),
        ),
        None => None,
    }
}

/// The entry of an annotation type.
pub open spec fn java_annotation_type(n: SyntaxNode, src: Seq<u8>) -> Option<EntryView> {
    match field_child(n, "name"@) {
        Some(m) => Some(
            entry_at(
                Section::Type,
                n,
                prefixed(java_modifiers(n, src), "@interface "@ + text_of(m, src)),
            ),
        ),
        None => None,
    }
}

/// The entry of a top-level Java declaration, if it has one.
pub open spec fn java_entry(c: SyntaxNode, src: Seq<u8>) -> Option<EntryView> {
    let k = c.kind@;
    if k == "import_declaration"@ {
        Some(entry_at(Section::Import, c, java_import_text(c, src)))
    } else if k == "package_declaration"@ {
        Some(entry_at(Section::Module, c, java_stmt_text(c, src, "package "@)))
    } else if k == "class_declaration"@ {
        java_class(c, src)
    } else if k == "interface_declaration"@ {
        java_interface(c, src)
    } else if k == "enum_declaration"@ {
        java_enum(c, src)
    } else if k == "record_declaration"@ {
        java_record(c, src)
    } else if k == "annotation_type_declaration"@ {
        java_annotation_type(c, src)
    } else {
        None
    }
}

/// The entries of a top-level declaration (at most one).
pub open spec fn java_entries(c: SyntaxNode, src: Seq<u8>) -> Seq<EntryView> {
    opt_entries(java_entry(c, src))
}

// ---- docs ----

/// The doc line of the declaration at position `i` of `cs`, searching back
/// from position `j`: the first text line of the nearest `/**` comment,
/// passing over extras that are not comments, cut to 120 characters.
pub open spec fn java_doc_from(cs: Seq<SyntaxNode>, j: int, src: Seq<u8>) -> Option<Seq<char>>
    decreases j,
{
    if j <= 0 || j > cs.len() {
        None
    } else {
        let p = cs[j - 1];
        if p.kind@ == "block_comment"@ && starts_with(text_of(p, src), "/**"@) {
            match first_doc_text(lines(text_of(p, src))) {
                Some(d) => Some(truncated(d, 120)),
                None => None,
            }
        } else if p.extra && p.kind@ != "line_comment"@ && p.kind@ != "block_comment"@ {
            java_doc_from(cs, j - 1, src)
        } else {
            None
        }
    }
}

// ---- computing them ----

/// `rest` after the modifiers and a space, or alone.
pub(crate) fn prefixed_exec(mods: &[char], rest: &[char]) -> (r: Vec<char>)
    ensures
        r@ == prefixed(mods@, rest@),
{
    if mods.len() == 0 {
        crate::text::copy_range(rest, 0, rest.len())
    } else {
        let mut r = crate::text::copy_range(mods, 0, mods.len());
        push_str(&mut r, " ");
        push_all(&mut r, rest);
        r
    }
}

/// A statement's text without the keyword and `;`, trimmed.
fn java_stmt_text_exec(n: &SyntaxNode, source: &[u8], kw: &str) -> (r: Vec<char>)
    ensures
        r@ == java_stmt_text(*n, source@, kw@),
{
    let t = node_text(n, source);
    let s = match strip_prefix_exec(t.as_slice(), chars_of(kw).as_slice()) {
        Some(r) => r,
        None => t,
    };
    trimmed(trim_end_char_exec(s.as_slice(), ';').as_slice())
}

/// The line range of a node.
pub(crate) fn node_range_exec(c: &SyntaxNode) -> (r: Vec<char>)
    requires
        rows_fit(*c),
    ensures
        r@ == node_range(*c),
{
    let lr = line_range(c.start_row + 1, c.end_row + 1);
    chars_of(lr.as_str())
}

/// The text of a field.
fn java_field_text_exec(n: &SyntaxNode, source: &[u8]) -> (r: Vec<char>)
    ensures
        r@ == java_field_text(*n, source@),
{
    let name = match find_child(n, "variable_declarator") {
        Some(d) => text_or_exec(child_by_field(d, "name"), source, "_"),
        None => chars_of("_"),
    };
    let mut rest = text_or_exec(child_by_field(n, "type"), source, "_");
    push_str(&mut rest, " ");
    push_all(&mut rest, name.as_slice());
    prefixed_exec(java_modifiers_exec(n, source).as_slice(), rest.as_slice())
}

/// Adds one member of a class or enum body to the member lines.
fn java_member_step_exec(acc: &mut Vec<String>, c: &SyntaxNode, source: &[u8])
    requires
        rows_fit(*c),
    ensures
        views(final(acc)@) == java_member_step(views(old(acc)@), *c, source@),
{
    let ghost a0 = views(acc@);
    if kind_is(c, "method_declaration") || kind_is(c, "constructor_declaration") {
        let mut line = java_method_sig_exec(c, source);
        push_str(&mut line, " ");
        push_all(&mut line, node_range_exec(c).as_slice());
        push_text(acc, line.as_slice());
        let ghost a1 = views(acc@);
        let ins = analyze_body(c, source, Language::Java);
        proof {
            lemma_body_lines(ins, *c, source@, Language::Java);
        }
        let ls = ins.format_lines();
        let ghost bl = views(ls@);
        let mut j: usize = 0;
        while j < ls.len()
            invariant
                j <= ls@.len(),
                bl == views(ls@),
                views(acc@) == a1 + indented(bl.take(j as int), "  "@),
            decreases ls@.len() - j,
        {
            let mut l = chars_of("  ");
            push_all(&mut l, chars_of(ls[j].as_str()).as_slice());
            push_text(acc, l.as_slice());
            assert(indented(bl.take(j + 1), "  "@) =~= indented(bl.take(j as int), "  "@).push(
                "  "@ + bl[j as int],
            ));
            j += 1;
        }
        assert(bl.take(j as int) =~= bl);
    } else if kind_is(c, "field_declaration") {
        if acc.len() < FIELD_TRUNCATE_THRESHOLD {
            let mut line = java_field_text_exec(c, source);
            push_str(&mut line, " ");
            push_all(&mut line, node_range_exec(c).as_slice());
            push_text(acc, line.as_slice());
        }
    }
}

/// Adds the members `cs[..]` of a body to the member lines, in order.
fn java_fold_exec(acc: &mut Vec<String>, n: &SyntaxNode, source: &[u8])
    requires
        rows_fit(*n),
    ensures
        views(final(acc)@) == java_fold(views(old(acc)@), n.children@, source@),
{
    let ghost a0 = views(acc@);
    proof {
        lemma_fits_below(*n);
    }
    let mut i: usize = 0;
    while i < n.children.len()
        invariant
            i <= n.children@.len(),
            forall|k: int| 0 <= k < n.children@.len() ==> #[trigger] rows_fit(n.children@[k]),
            views(acc@) == java_fold(a0, n.children@.take(i as int), source@),
        decreases n.children@.len() - i,
    {
        assert(n.children@.take(i + 1).drop_last() =~= n.children@.take(i as int));
        java_member_step_exec(acc, &n.children[i], source);
        i += 1;
    }
    assert(n.children@.take(i as int) =~= n.children@);
}

/// The member lines of a class body.
proof fn lemma_members_fold(cs: Seq<SyntaxNode>, src: Seq<u8>)
    ensures
        java_members(cs, src) == java_fold(Seq::empty(), cs, src),
    decreases cs.len(),
{
    if cs.len() > 0 {
        lemma_members_fold(cs.drop_last(), src);
    }
}

/// The entry of a class declaration.
fn java_class_exec(n: &SyntaxNode, source: &[u8]) -> (r: Option<SkeletonEntry>)
    requires
        rows_fit(*n),
    ensures
        entry_opt(r) == java_class(*n, source@),
{
    proof {
        lemma_fits_below(*n);
    }
    let name = match child_by_field(n, "name") {
        Some(m) => node_text(m, source),
        None => {
            return None;
        },
    };
    let mut rest = chars_of("class ");
    push_all(&mut rest, name.as_slice());
    let ghost r0 = rest@;
    match child_by_field(n, "superclass") {
        Some(sc) => {
            push_str(&mut rest, " extends ");
            match find_child(sc, "type_identifier") {
                Some(t) => push_all(&mut rest, node_text(t, source).as_slice()),
                None => push_all(&mut rest, node_text(sc, source).as_slice()),
            }
        },
        None => {},
    }
    assert(rest@ =~= r0 + java_superclass(*n, source@));
    let label = prefixed_exec(java_modifiers_exec(n, source).as_slice(), rest.as_slice());
    let mut members: Vec<String> = Vec::new();
    match child_by_field(n, "body") {
        Some(b) => {
            assert(views(members@) =~= Seq::<Seq<char>>::empty());
            java_fold_exec(&mut members, b, source);
            proof {
                lemma_members_fold(b.children@, source@);
            }
        },
        None => {
            assert(views(members@) =~= Seq::<Seq<char>>::empty());
        },
    }
    let mut e = new_entry(Section::Class, n, label.as_slice());
    e.children = members;
    Some(e)
}

/// The entry of an interface declaration.
fn java_interface_exec(n: &SyntaxNode, source: &[u8]) -> (r: Option<SkeletonEntry>)
    requires
        rows_fit(*n),
    ensures
        entry_opt(r) == java_interface(*n, source@),
{
    proof {
        lemma_fits_below(*n);
    }
    let name = match child_by_field(n, "name") {
        Some(m) => node_text(m, source),
        None => {
            return None;
        },
    };
    let mut rest = chars_of("interface ");
    push_all(&mut rest, name.as_slice());
    let label = prefixed_exec(java_modifiers_exec(n, source).as_slice(), rest.as_slice());
    let mut members: Vec<String> = Vec::new();
    match child_by_field(n, "body") {
        Some(b) => {
            proof {
                lemma_fits_below(*b);
            }
            let mut i: usize = 0;
            while i < b.children.len()
                invariant
                    i <= b.children@.len(),
                    forall|k: int| 0 <= k < b.children@.len() ==> #[trigger] rows_fit(b.children@[k]),
                    views(members@) == java_interface_members(b.children@.take(i as int), source@),
                decreases b.children@.len() - i,
            {
                assert(b.children@.take(i + 1).drop_last() =~= b.children@.take(i as int));
                let c = &b.children[i];
                if kind_is(c, "method_declaration") || kind_is(c, "constant_declaration") {
                    let mut line = java_method_sig_exec(c, source);
                    push_str(&mut line, " ");
                    push_all(&mut line, node_range_exec(c).as_slice());
                    push_text(&mut members, line.as_slice());
                }
                i += 1;
            }
            assert(b.children@.take(i as int) =~= b.children@);
        },
        None => {
            assert(views(members@) =~= Seq::<Seq<char>>::empty());
        },
    }
    let mut e = new_entry(Section::Trait, n, label.as_slice());
    e.children = members;
    Some(e)
}

/// The entry of an enum declaration.
fn java_enum_exec(n: &SyntaxNode, source: &[u8]) -> (r: Option<SkeletonEntry>)
    requires
        rows_fit(*n),
    ensures
        entry_opt(r) == java_enum(*n, source@),
{
    proof {
        lemma_fits_below(*n);
    }
    let name = match child_by_field(n, "name") {
        Some(m) => node_text(m, source),
        None => {
            return None;
        },
    };
    let b = match child_by_field(n, "body") {
        Some(b) => b,
        None => {
            return None;
        },
    };
    proof {
        lemma_fits_below(*b);
    }
    let mut rest = chars_of("enum ");
    push_all(&mut rest, name.as_slice());
    let label = prefixed_exec(java_modifiers_exec(n, source).as_slice(), rest.as_slice());
    let mut consts: Vec<String> = Vec::new();
    let mut members: Vec<String> = Vec::new();
    let mut i: usize = 0;
    assert(views(consts@) =~= Seq::<Seq<char>>::empty());
    assert(views(members@) =~= Seq::<Seq<char>>::empty());
    while i < b.children.len()
        invariant
            i <= b.children@.len(),
            forall|k: int| 0 <= k < b.children@.len() ==> #[trigger] rows_fit(b.children@[k]),
            (views(consts@), views(members@)) == java_enum_parts(b.children@.take(i as int), source@),
        decreases b.children@.len() - i,
    {
        assert(b.children@.take(i + 1).drop_last() =~= b.children@.take(i as int));
        let c = &b.children[i];
        if kind_is(c, "enum_constant") {
            let t = text_or_exec(child_by_field(c, "name"), source, "_");
            push_text(&mut consts, t.as_slice());
        } else if kind_is(c, "enum_body_declarations") {
            java_fold_exec(&mut members, c, source);
        }
        i += 1;
    }
    assert(b.children@.take(i as int) =~= b.children@);
    let ghost cv = views(consts@);
    let mut children = consts;
    let mut k: usize = 0;
    while k < members.len()
        invariant
            k <= members@.len(),
            views(children@) == cv + views(members@).take(k as int),
        decreases members@.len() - k,
    {
        let t = chars_of(members[k].as_str());
        push_text(&mut children, t.as_slice());
        assert(views(members@).take(k + 1) =~= views(members@).take(k as int).push(members@[k as int]@));
        k += 1;
    }
    assert(views(members@).take(k as int) =~= views(members@));
    let mut e = new_entry(Section::Type, n, label.as_slice());
    e.children = children;
    Some(e)
}

/// The entry of a record declaration.
fn java_record_exec(n: &SyntaxNode, source: &[u8]) -> (r: Option<SkeletonEntry>)
    requires
        rows_fit(*n),
    ensures
        entry_opt(r) == java_record(*n, source@),
{
    match child_by_field(n, "name") {
        Some(m) => {
            let mut rest = chars_of("record ");
            push_all(&mut rest, node_text(m, source).as_slice());
            push_all(&mut rest, text_or_exec(find_child(n, "formal_parameters"), source, "()").as_slice());
            let label = prefixed_exec(java_modifiers_exec(n, source).as_slice(), rest.as_slice());
            Some(new_entry(Section::Type, n, label.as_slice()))
        },
        None => None,
    }
}

/// The entry of an annotation type declaration.
fn java_annotation_type_exec(n: &SyntaxNode, source: &[u8]) -> (r: Option<SkeletonEntry>)
    requires
        rows_fit(*n),
    ensures
        entry_opt(r) == java_annotation_type(*n, source@),
{
    match child_by_field(n, "name") {
        Some(m) => {
            let mut rest = chars_of("@interface ");
            push_all(&mut rest, node_text(m, source).as_slice());
            let label = prefixed_exec(java_modifiers_exec(n, source).as_slice(), rest.as_slice());
            Some(new_entry(Section::Type, n, label.as_slice()))
        },
        None => None,
    }
}

/// The entry of a top-level Java declaration.
pub fn java_entry_exec(c: &SyntaxNode, source: &[u8]) -> (r: Option<SkeletonEntry>)
    requires
        rows_fit(*c),
    ensures
        entry_opt(r) == java_entry(*c, source@),
{
    if kind_is(c, "import_declaration") {
        let t = java_stmt_text_exec(c, source, "import ");
        let dot = chars_of(".");
        proof {
            reveal_strlit(".");
        }
        let r = replace_exec(t.as_slice(), dot.as_slice(), chars_of("::").as_slice());
        Some(new_entry(Section::Import, c, r.as_slice()))
    } else if kind_is(c, "package_declaration") {
        let t = java_stmt_text_exec(c, source, "package ");
        Some(new_entry(Section::Module, c, t.as_slice()))
    } else if kind_is(c, "class_declaration") {
        java_class_exec(c, source)
    } else if kind_is(c, "interface_declaration") {
        java_interface_exec(c, source)
    } else if kind_is(c, "enum_declaration") {
        java_enum_exec(c, source)
    } else if kind_is(c, "record_declaration") {
        java_record_exec(c, source)
    } else if kind_is(c, "annotation_type_declaration") {
        java_annotation_type_exec(c, source)
    } else {
        None
    }
}

/// The doc line of the declaration at position `i` of `cs`.
pub fn java_doc_line_exec(cs: &[SyntaxNode], i: usize, source: &[u8]) -> (r: Option<Vec<char>>)
    requires
        i < cs.len(),
    ensures
        match r {
            Some(d) => java_doc_from(cs@, i as int, source@) == Some(d@),
            None => java_doc_from(cs@, i as int, source@) is None,
        },
{
    let open = chars_of("/**");
    let mut j: usize = i;
    while j > 0
        invariant
            j <= i < cs.len(),
            open@ == "/**"@,
            java_doc_from(cs@, i as int, source@) == java_doc_from(cs@, j as int, source@),
        decreases j,
    {
        let p = &cs[j - 1];
        if kind_is(p, "block_comment") && has_prefix(node_text(p, source).as_slice(), open.as_slice()) {
            return match first_doc_text_exec(node_text(p, source).as_slice()) {
                Some(d) => {
                    let s = string_of(d.as_slice());
                    let c = truncate(s.as_str(), 120);
                    Some(chars_of(c.as_str()))
                },
                None => None,
            };
        } else if p.extra && !kind_is(p, "line_comment") && !kind_is(p, "block_comment") {
            j -= 1;
        } else {
            return None;
        }
    }
    None
}

} // verus!
