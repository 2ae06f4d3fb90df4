//! How a file becomes its skeleton: the entries of its top-level nodes,
//! their docs and body summaries, the lines its tests span and its module
//! doc.
use vstd::prelude::*;

use crate::index::body::{analyze_body, body_lines, insight_lines, lemma_body_lines, BodyInsights};
use crate::index::golang::{go_doc_line, go_doc_line_exec, go_entries, go_is_test, go_is_test_exec, push_go_entries};
use crate::index::java::{java_doc_from, java_doc_line_exec, java_entries, java_entry_exec};
use crate::index::typescript::{ts_doc_line, ts_doc_line_exec, ts_entries, ts_entry_exec, ts_is_test, ts_is_test_exec};
use crate::index::python::{
    py_doc_line, py_doc_line_exec, py_entry, py_entry_exec, py_entries, py_is_test, py_is_test_exec,
    py_module_doc, py_module_doc_exec,
};
use crate::index::skeleton::{entry_views, format_skeleton, skeleton_text, EntryView, Section, SkeletonEntry};
use crate::index::syntax::{kind_is, lemma_fits_below, node_text, rows_fit, text_of, SyntaxNode};
use crate::index::api::{api_of, api_of_tree, IndexError};
use crate::index::skeleton::PublicApi;
use crate::index::syntax::{parse_of, parse_source};
use crate::index::Language;
use crate::index::rust_items::{
    is_attr_node, rust_doc_comment, rust_doc_comment_exec, rust_doc_line, rust_doc_line_exec, rust_doc_top,
    rust_entries, rust_entries_exec, rust_is_test, rust_is_test_exec, rust_module_doc, rust_module_doc_exec,
};
use crate::index::truncated;
use crate::text::{strip_prefix, trim};
use crate::text::{chars_of, has_prefix, starts_with, string_of, views};

verus! {

/// An entry of section `s` for node `n` with text `text`, spanning the
/// node's lines, with nothing under or above it.
pub open spec fn entry_at(s: Section, n: SyntaxNode, text: Seq<char>) -> EntryView {
    EntryView {
        section: s,
        line_start: (n.start_row + 1) as nat,
        line_end: (n.end_row + 1) as nat,
        text,
        children: Seq::empty(),
        attrs: Seq::empty(),
        insights: Seq::empty(),
        doc: None,
    }
}

/// `e` with the lines `ch` under it.
pub open spec fn with_children(e: EntryView, ch: Seq<Seq<char>>) -> EntryView {
    EntryView { children: ch, ..e }
}

/// `e` starting at line `l`.
pub open spec fn with_start(e: EntryView, l: nat) -> EntryView {
    EntryView { line_start: l, ..e }
}

/// The entries of an optional entry.
pub open spec fn opt_entries(o: Option<EntryView>) -> Seq<EntryView> {
    match o {
        Some(e) => seq![e],
        None => Seq::empty(),
    }
}

/// The view of an optional entry.
pub open spec fn entry_opt(o: Option<SkeletonEntry>) -> Option<EntryView> {
    match o {
        Some(e) => Some(e@),
        None => None,
    }
}

/// The lines `ls`, each after `p`.
pub open spec fn indented(ls: Seq<Seq<char>>, p: Seq<char>) -> Seq<Seq<char>> {
    ls.map_values(|l: Seq<char>| p + l)
}

/// A new entry of section `s` for node `n` with text `text`.
pub fn new_entry(s: Section, n: &SyntaxNode, text: &[char]) -> (r: SkeletonEntry)
    requires
        n.start_row < usize::MAX,
        n.end_row < usize::MAX,
    ensures
        r@ == entry_at(s, *n, text@),
{
    let r = SkeletonEntry {
        section: s,
        line_start: n.start_row + 1,
        line_end: n.end_row + 1,
        text: string_of(text),
        children: Vec::new(),
        attrs: Vec::new(),
        insights: BodyInsights::default(),
        doc: None,
    };
    assert(views(r.children@) =~= Seq::<Seq<char>>::empty());
    assert(views(r.attrs@) =~= Seq::<Seq<char>>::empty());
    assert(insight_lines(r.insights) =~= Seq::<Seq<char>>::empty());
    r
}

/// Appends entry `e` to a list of entries.
pub fn push_entry(v: &mut Vec<SkeletonEntry>, e: SkeletonEntry)
    ensures
        entry_views(final(v)@) == entry_views(old(v)@).push(e@),
{
    let ghost v0 = entry_views(v@);
    v.push(e);
    assert(entry_views(v@) =~= v0.push(e@));
}

/// Appends an optional entry.
pub fn push_opt(v: &mut Vec<SkeletonEntry>, o: Option<SkeletonEntry>)
    ensures
        entry_views(final(v)@) == entry_views(old(v)@) + opt_entries(entry_opt(o)),
{
    let ghost v0 = entry_views(v@);
    match o {
        Some(e) => push_entry(v, e),
        None => {},
    }
    assert(entry_views(v@) =~= v0 + opt_entries(entry_opt(o)));
}

// ---- per language ----

/// The entries of a top-level node in `lang` (Rust items, which need the
/// attributes before them, are read by `nodes_at`).
pub open spec fn nodes_of(c: SyntaxNode, src: Seq<u8>, lang: Language) -> Seq<EntryView> {
    match lang {
        Language::Python => py_entries(c, src),
        Language::Go => go_entries(c, src),
        Language::TypeScript | Language::JavaScript => ts_entries(c, src),
        Language::Java => java_entries(c, src),
        Language::Rust => Seq::empty(),
    }
}

/// The entries of the top-level node at position `i` of `cs`.
pub open spec fn nodes_at(cs: Seq<SyntaxNode>, i: int, src: Seq<u8>, lang: Language) -> Seq<EntryView> {
    match lang {
        Language::Rust => rust_entries(cs, i, src),
        _ => nodes_of(cs[i], src, lang),
    }
}

/// The top-level node at position `i` of `cs` is a test, to be collapsed
/// into the tests line (in Rust, by the attributes before it).
pub open spec fn test_at(cs: Seq<SyntaxNode>, i: int, src: Seq<u8>, lang: Language) -> bool {
    match lang {
        Language::Rust => rust_is_test(cs, i, src),
        _ => test_of(cs[i], src, lang),
    }
}

/// A top-level node is an attribute, which belongs to the item after it.
pub open spec fn attr_of(c: SyntaxNode, lang: Language) -> bool {
    lang == Language::Rust && is_attr_node(c)
}

/// A top-level node is a test, to be collapsed into the tests line.
pub open spec fn test_of(c: SyntaxNode, src: Seq<u8>, lang: Language) -> bool {
    match lang {
        Language::Python => py_is_test(c, src),
        Language::Go => go_is_test(c, src),
        Language::TypeScript | Language::JavaScript => ts_is_test(c, src),
        _ => false,
    }
}

/// A node is a doc comment: any comment in Go, a `/**` comment in
/// TypeScript, JavaScript and Java; Python documents with docstrings.
pub open spec fn doc_comment_of(c: SyntaxNode, src: Seq<u8>, lang: Language) -> bool {
    match lang {
        Language::Go => c.kind@ == "comment"@,
        Language::TypeScript | Language::JavaScript => c.kind@ == "comment"@ && starts_with(
            text_of(c, src),
            "/**"@,
        ),
        Language::Java => c.kind@ == "block_comment"@ && starts_with(text_of(c, src), "/**"@),
        Language::Rust => rust_doc_comment(c, src),
        _ => false,
    }
}

/// A top-level node belongs to the module doc (Python's module docstring).
pub open spec fn module_doc_node(c: SyntaxNode, src: Seq<u8>, lang: Language) -> bool {
    match lang {
        Language::Python => py_module_doc(c, src),
        Language::Rust => rust_module_doc(c, src),
        _ => false,
    }
}

/// The doc line of the top-level node at position `i` of `cs`.
pub open spec fn doc_line_of(cs: Seq<SyntaxNode>, i: int, src: Seq<u8>, lang: Language) -> Option<
    Seq<char>,
> {
    match lang {
        Language::Python => py_doc_line(cs[i], src),
        Language::Go => go_doc_line(cs, i, src),
        Language::TypeScript | Language::JavaScript => ts_doc_line(cs, i, src),
        Language::Java => java_doc_from(cs, i, src),
        Language::Rust => rust_doc_line(cs, i, src),
    }
}

// ---- the skeleton ----

/// The first line of the doc comments right before position `i` of `cs`.
pub open spec fn doc_start(cs: Seq<SyntaxNode>, i: int, src: Seq<u8>, lang: Language) -> Option<nat>
    decreases i,
{
    if i <= 0 || i > cs.len() {
        None
    } else if attr_of(cs[i - 1], lang) {
        doc_start(cs, i - 1, src, lang)
    } else if doc_comment_of(cs[i - 1], src, lang) {
        match doc_start(cs, i - 1, src, lang) {
            Some(l) => Some(l),
            None => Some((cs[i - 1].start_row + 1) as nat),
        }
    } else {
        None
    }
}

/// Entry `k` of the node at position `i`, completed: the first entry
/// starts at its doc comments and carries the doc line; a function (or Go
/// method) carries the summary of its body.
pub open spec fn completed(e: EntryView, k: int, cs: Seq<SyntaxNode>, i: int, src: Seq<u8>, lang: Language) -> EntryView {
    let c = cs[i];
    let e1 = if k == 0 {
        EntryView {
            line_start: match doc_start(cs, i, src, lang) {
                Some(d) => if d < e.line_start {
                    d
                } else {
                    e.line_start
                },
                None => e.line_start,
            },
            doc: doc_line_of(cs, i, src, lang),
            ..e
        }
    } else {
        e
    };
    if e.section == Section::Function || (lang == Language::Go && c.kind@ == "method_declaration"@) {
        EntryView { insights: body_lines(c, src, lang), ..e1 }
    } else {
        e1
    }
}

/// The completed entries of the node at position `i`.
pub open spec fn child_entries(cs: Seq<SyntaxNode>, i: int, src: Seq<u8>, lang: Language) -> Seq<EntryView> {
    let es = nodes_at(cs, i, src, lang);
    Seq::new(es.len(), |k: int| completed(es[k], k, cs, i, src, lang))
}

/// The entries and test line ranges of the first `n` top-level nodes `cs`:
/// doc comments are skipped, tests collapse into their lines, the others
/// give their entries.
pub open spec fn skeleton_parts(cs: Seq<SyntaxNode>, n: int, src: Seq<u8>, lang: Language) -> (
    Seq<EntryView>,
    Seq<(usize, usize)>,
)
    decreases n,
{
    if n <= 0 || n > cs.len() {
        (Seq::empty(), Seq::empty())
    } else {
        let (es, ts) = skeleton_parts(cs, n - 1, src, lang);
        let c = cs[n - 1];
        if doc_comment_of(c, src, lang) || attr_of(c, lang) {
            (es, ts)
        } else if test_at(cs, n - 1, src, lang) {
            (es, ts.push(((c.start_row + 1) as usize, (c.end_row + 1) as usize)))
        } else {
            (es + child_entries(cs, n - 1, src, lang), ts)
        }
    }
}

/// The last line of a node, not counting a line it ends at the start of.
pub open spec fn end_line(c: SyntaxNode) -> usize {
    if c.end_column == 0 {
        c.end_row
    } else {
        (c.end_row + 1) as usize
    }
}

/// The module doc lines found from position `i` on, after `acc`: a run of
/// module doc nodes at the start (where only extras may come between).
pub open spec fn module_doc_from(cs: Seq<SyntaxNode>, i: int, src: Seq<u8>, lang: Language, acc: Option<(usize, usize)>) -> Option<(usize, usize)>
    decreases cs.len() - i,
{
    if i < 0 || i >= cs.len() {
        acc
    } else {
        let c = cs[i];
        if module_doc_node(c, src, lang) {
            let a = match acc {
                Some((s, _)) => Some((s, end_line(c))),
                None => Some(((c.start_row + 1) as usize, end_line(c))),
            };
            module_doc_from(cs, i + 1, src, lang, a)
        } else if !c.extra {
            acc
        } else {
            module_doc_from(cs, i + 1, src, lang, acc)
        }
    }
}

/// The skeleton of a syntax tree in `lang`.
pub open spec fn skeleton_of(root: SyntaxNode, src: Seq<u8>, lang: Language) -> Seq<char> {
    let cs = root.children@;
    let (es, ts) = skeleton_parts(cs, cs.len() as int, src, lang);
    skeleton_text(es, ts, module_doc_from(cs, 0, src, lang, None))
}

// ---- computing it ----

/// The entries of a top-level node.
fn nodes_exec(c: &SyntaxNode, source: &[u8], lang: Language) -> (r: Vec<SkeletonEntry>)
    requires
        rows_fit(*c),
    ensures
        entry_views(r@) == nodes_of(*c, source@, lang),
{
    let mut v: Vec<SkeletonEntry> = Vec::new();
    assert(entry_views(v@) =~= Seq::<EntryView>::empty());
    match lang {
        Language::Python => push_opt(&mut v, py_entry_exec(c, source)),
        Language::Go => push_go_entries(&mut v, c, source),
        Language::TypeScript | Language::JavaScript => push_opt(&mut v, ts_entry_exec(c, source)),
        Language::Java => push_opt(&mut v, java_entry_exec(c, source)),
        Language::Rust => {},
    }
    assert(entry_views(v@) =~= nodes_of(*c, source@, lang));
    v
}

/// Whether a top-level node is a test.
fn test_exec(c: &SyntaxNode, source: &[u8], lang: Language) -> (b: bool)
    ensures
        b == test_of(*c, source@, lang),
{
    match lang {
        Language::Python => py_is_test_exec(c, source),
        Language::Go => go_is_test_exec(c, source),
        Language::TypeScript | Language::JavaScript => ts_is_test_exec(c, source),
        _ => false,
    }
}

/// Whether a node is a doc comment.
fn doc_comment_exec(c: &SyntaxNode, source: &[u8], lang: Language) -> (b: bool)
    ensures
        b == doc_comment_of(*c, source@, lang),
{
    match lang {
        Language::Go => kind_is(c, "comment"),
        Language::TypeScript | Language::JavaScript => kind_is(c, "comment") && has_prefix(
            node_text(c, source).as_slice(),
            chars_of("/**").as_slice(),
        ),
        Language::Java => kind_is(c, "block_comment") && has_prefix(
            node_text(c, source).as_slice(),
            chars_of("/**").as_slice(),
        ),
        Language::Rust => rust_doc_comment_exec(c, source),
        _ => false,
    }
}

/// Whether a top-level node is an attribute.
fn attr_exec(c: &SyntaxNode, lang: Language) -> (b: bool)
    ensures
        b == attr_of(*c, lang),
{
    match lang {
        Language::Rust => kind_is(c, "attribute_item"),
        _ => false,
    }
}

/// The entries of the top-level node at position `i`.
fn nodes_at_exec(cs: &[SyntaxNode], i: usize, source: &[u8], lang: Language) -> (r: Vec<SkeletonEntry>)
    requires
        i < cs.len(),
        rows_fit(cs@[i as int]),
    ensures
        entry_views(r@) == nodes_at(cs@, i as int, source@, lang),
{
    match lang {
        Language::Rust => {
            let mut v: Vec<SkeletonEntry> = Vec::new();
            assert(entry_views(v@) =~= Seq::<EntryView>::empty());
            push_opt(&mut v, rust_entries_exec(cs, i, source));
            assert(entry_views(v@) =~= nodes_at(cs@, i as int, source@, lang));
            v
        },
        _ => nodes_exec(&cs[i], source, lang),
    }
}

/// Whether the top-level node at position `i` is a test.
fn test_at_exec(cs: &[SyntaxNode], i: usize, source: &[u8], lang: Language) -> (b: bool)
    requires
        i < cs.len(),
    ensures
        b == test_at(cs@, i as int, source@, lang),
{
    match lang {
        Language::Rust => rust_is_test_exec(cs, i, source),
        _ => test_exec(&cs[i], source, lang),
    }
}

/// Whether a top-level node belongs to the module doc.
fn module_doc_exec(c: &SyntaxNode, source: &[u8], lang: Language) -> (b: bool)
    ensures
        b == module_doc_node(*c, source@, lang),
{
    match lang {
        Language::Python => py_module_doc_exec(c, source),
        Language::Rust => rust_module_doc_exec(c, source),
        _ => false,
    }
}

/// The doc line of the top-level node at position `i`.
fn doc_line_exec(cs: &[SyntaxNode], i: usize, source: &[u8], lang: Language) -> (r: Option<Vec<char>>)
    requires
        i < cs.len(),
    ensures
        match r {
            Some(d) => doc_line_of(cs@, i as int, source@, lang) == Some(d@),
            None => doc_line_of(cs@, i as int, source@, lang) is None,
        },
{
    match lang {
        Language::Python => py_doc_line_exec(&cs[i], source),
        Language::Go => go_doc_line_exec(cs, i, source),
        Language::TypeScript | Language::JavaScript => ts_doc_line_exec(cs, i, source),
        Language::Java => java_doc_line_exec(cs, i, source),
        Language::Rust => rust_doc_line_exec(cs, i, source),
    }
}

/// The first line of the doc comments right before position `i`.
fn doc_start_exec(cs: &[SyntaxNode], i: usize, source: &[u8], lang: Language) -> (r: Option<usize>)
    requires
        i <= cs.len(),
        forall|k: int| 0 <= k < cs@.len() ==> #[trigger] rows_fit(cs@[k]),
    ensures
        match r {
            Some(l) => doc_start(cs@, i as int, source@, lang) == Some(l as nat),
            None => doc_start(cs@, i as int, source@, lang) is None,
        },
{
    let mut j: usize = i;
    let mut earliest: Option<usize> = None;
    while j > 0 && (attr_exec(&cs[j - 1], lang) || doc_comment_exec(&cs[j - 1], source, lang))
        invariant
            j <= i <= cs.len(),
            forall|k: int| 0 <= k < cs@.len() ==> #[trigger] rows_fit(cs@[k]),
            doc_start(cs@, i as int, source@, lang) == match doc_start(cs@, j as int, source@, lang) {
                Some(l) => Some(l),
                None => match earliest {
                    Some(e) => Some(e as nat),
                    None => None,
                },
            },
        decreases j,
    {
        assert(rows_fit(cs@[j - 1]));
        if !attr_exec(&cs[j - 1], lang) {
            earliest = Some(cs[j - 1].start_row + 1);
        }
        j -= 1;
    }
    earliest
}

/// Completes entry `k` of the node at position `i` (see `completed`).
fn complete(e: SkeletonEntry, k: usize, cs: &[SyntaxNode], i: usize, source: &[u8], lang: Language) -> (r: SkeletonEntry)
    requires
        i < cs.len(),
        forall|j: int| 0 <= j < cs@.len() ==> #[trigger] rows_fit(cs@[j]),
    ensures
        r@ == completed(e@, k as int, cs@, i as int, source@, lang),
{
    let mut e = e;
    let c = &cs[i];
    let is_fn = e.section == Section::Function || (lang == Language::Go && kind_is(c, "method_declaration"));
    if k == 0 {
        match doc_start_exec(cs, i, source, lang) {
            Some(d) => {
                if d < e.line_start {
                    e.line_start = d;
                }
            },
            None => {},
        }
        e.doc = match doc_line_exec(cs, i, source, lang) {
            Some(d) => Some(string_of(d.as_slice())),
            None => None,
        };
    }
    if is_fn {
        let ins = analyze_body(c, source, lang);
        proof {
            lemma_body_lines(ins, *c, source@, lang);
        }
        e.insights = ins;
    }
    e
}

/// The start and end lines of the module doc.
fn module_doc_exec_all(cs: &[SyntaxNode], source: &[u8], lang: Language) -> (r: Option<(usize, usize)>)
    requires
        forall|k: int| 0 <= k < cs@.len() ==> #[trigger] rows_fit(cs@[k]),
    ensures
        r == module_doc_from(cs@, 0, source@, lang, None),
{
    let mut acc: Option<(usize, usize)> = None;
    let mut i: usize = 0;
    let mut stop = false;
    while i < cs.len() && !stop
        invariant
            i <= cs.len(),
            forall|k: int| 0 <= k < cs@.len() ==> #[trigger] rows_fit(cs@[k]),
            stop ==> module_doc_from(cs@, 0, source@, lang, None) == acc,
            !stop ==> module_doc_from(cs@, 0, source@, lang, None) == module_doc_from(
                cs@,
                i as int,
                source@,
                lang,
                acc,
            ),
        decreases cs.len() - i, if stop { 0int } else { 1int },
    {
        let c = &cs[i];
        assert(rows_fit(cs@[i as int]));
        if module_doc_exec(c, source, lang) {
            let end = if c.end_column == 0 {
                c.end_row
            } else {
                c.end_row + 1
            };
            acc = match acc {
                Some((s, _)) => Some((s, end)),
                None => Some((c.start_row + 1, end)),
            };
            i += 1;
        } else if !c.extra {
            stop = true;
        } else {
            i += 1;
        }
    }
    acc
}

/// The skeleton of a syntax tree in `lang` (see `skeleton_of`).
pub fn build_skeleton(root: &SyntaxNode, source: &[u8], lang: Language) -> (r: String)
    requires
        rows_fit(*root),
    ensures
        r@ == skeleton_of(*root, source@, lang),
{
    proof {
        lemma_fits_below(*root);
    }
    let cs = root.children.as_slice();
    let module_doc = module_doc_exec_all(cs, source, lang);
    let mut entries: Vec<SkeletonEntry> = Vec::new();
    let mut tests: Vec<(usize, usize)> = Vec::new();
    let mut i: usize = 0;
    assert(entry_views(entries@) =~= Seq::<EntryView>::empty());
    while i < cs.len()
        invariant
            i <= cs@.len(),
            cs@ == root.children@,
            forall|k: int| 0 <= k < cs@.len() ==> #[trigger] rows_fit(cs@[k]),
            (entry_views(entries@), tests@) == skeleton_parts(cs@, i as int, source@, lang),
        decreases cs@.len() - i,
    {
        let c = &cs[i];
        assert(rows_fit(cs@[i as int]));
        if doc_comment_exec(c, source, lang) || attr_exec(c, lang) {
        } else if test_at_exec(cs, i, source, lang) {
            tests.push((c.start_row + 1, c.end_row + 1));
        } else {
            let mut es = nodes_at_exec(cs, i, source, lang);
            let ghost nv = nodes_at(cs@, i as int, source@, lang);
            let ghost e0 = entry_views(entries@);
            let mut k: usize = 0;
            let n = es.len();
            while k < n
                invariant
                    k <= n,
                    i < cs@.len(),
                    forall|j: int| 0 <= j < cs@.len() ==> #[trigger] rows_fit(cs@[j]),
                    nv == nodes_at(cs@, i as int, source@, lang),
                    nv.len() == n,
                    entry_views(es@) == nv.skip(k as int),
                    entry_views(entries@) == e0 + child_entries(cs@, i as int, source@, lang).take(
                        k as int,
                    ),
                decreases n - k,
            {
                let ghost before = entry_views(es@);
                assert(before.len() == es@.len());
                assert(before[0] == es@[0]@);
                let e = es.remove(0);
                assert(before[0] == e@);
                assert(entry_views(es@) =~= before.drop_first());
                assert(nv.skip(k as int).drop_first() =~= nv.skip(k + 1));
                let done = complete(e, k, cs, i, source, lang);
                push_entry(&mut entries, done);
                assert(child_entries(cs@, i as int, source@, lang).take(k + 1) =~= child_entries(
                    cs@,
                    i as int,
                    source@,
                    lang,
                ).take(k as int).push(done@));
                k += 1;
            }
            assert(child_entries(cs@, i as int, source@, lang).take(k as int) =~= child_entries(
                cs@,
                i as int,
                source@,
                lang,
            ));
        }
        i += 1;
    }
    assert(cs@.len() == root.children@.len());
    format_skeleton(entries.as_slice(), tests.as_slice(), module_doc)
}

// ---- from source ----

/// The skeleton of a source file: an error when the source does not
/// parse, else the skeleton of its syntax tree (see `build_skeleton`).
pub fn index_source(source: &[u8], lang: Language) -> (r: Result<String, IndexError>)
    ensures
        match parse_of(lang, source@) {
            Some(t) => (r matches Ok(s) && s@ == skeleton_of(t, source@, lang)),
            None => (r matches Err(e) && e is ParseFailed),
        },
{
    match parse_source(source, lang) {
        Some(tree) => Ok(build_skeleton(&tree, source, lang)),
        None => Err(IndexError::ParseFailed),
    }
}

/// The public API and the skeleton of a source file, from one syntax tree
/// (see `api_of_tree` and `build_skeleton`); an error when the source does
/// not parse.
pub fn extract_all(source: &[u8], lang: Language) -> (r: Result<(PublicApi, String), IndexError>)
    ensures
        match parse_of(lang, source@) {
            Some(t) => (r matches Ok((api, s)) && s@ == skeleton_of(t, source@, lang) && views(api.types@)
                == api_of(t.children@, source@, lang).0 && views(api.functions@) == api_of(
                t.children@,
                source@,
                lang,
            ).1),
            None => (r matches Err(e) && e is ParseFailed),
        },
{
    match parse_source(source, lang) {
        Some(tree) => {
            let api = api_of_tree(&tree, source, lang);
            let skeleton = build_skeleton(&tree, source, lang);
            Ok((api, skeleton))
        },
        None => Err(IndexError::ParseFailed),
    }
}

/// A doc line is at most 120 characters long, in every language.
pub proof fn law_doc_line_fits(cs: Seq<SyntaxNode>, i: int, src: Seq<u8>, lang: Language)
    requires
        0 <= i < cs.len(),
    ensures
        doc_line_of(cs, i, src, lang) matches Some(d) ==> d.len() <= 120,
{
    reveal_strlit("...");
    match lang {
        Language::Java => lemma_java_doc_fits(cs, i, src),
        Language::Rust => {
            if let Some(j) = rust_doc_top(cs, i, src, None) {
                if 0 <= j < cs.len() {
                    if let Some(r) = strip_prefix(text_of(cs[j], src), "///"@) {
                        let d = trim(r);
                        if d.len() > 120 {
                            assert(truncated(d, 120).len() == 120);
                        }
                    }
                }
            }
        },
        _ => {},
    }
}

/// A Java doc line found searching back from position `j` fits in 120
/// characters.
proof fn lemma_java_doc_fits(cs: Seq<SyntaxNode>, j: int, src: Seq<u8>)
    ensures
        java_doc_from(cs, j, src) matches Some(d) ==> d.len() <= 120,
    decreases j,
{
    reveal_strlit("...");
    if 0 < j <= cs.len() {
        lemma_java_doc_fits(cs, j - 1, src);
    }
}

} // verus!
