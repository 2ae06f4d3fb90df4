//! The skeleton of a file: its entries grouped by section, imports
//! consolidated by root, with line ranges, docs and body summaries.
use vstd::prelude::*;

use crate::index::body::{insight_lines, BodyInsights};
use crate::deps::sorted::cviews;
use crate::index::{line_range, range_text};
use crate::text::{
    chars_eq, chars_of, copy_range, find_at, occurs_at, find_from, has_prefix, has_suffix, join, join_exec,
    push_all, push_str, split_exec, split_str, string_of, texts_of, trim, trimmed, views,
};

verus! {

/// A section of a skeleton, in the order in which sections are printed.
#[derive(Debug, Clone, Copy, PartialEq, Eq, Structural)]
pub enum Section {
    Import,
    Constant,
    Expression,
    Type,
    Trait,
    Impl,
    Function,
    Class,
    Module,
    Macro,
}

/// The section printed in place `k`.
pub open spec fn section_of_rank(k: nat) -> Section {
    if k == 0 {
        Section::Import
    } else if k == 1 {
        Section::Constant
    } else if k == 2 {
        Section::Expression
    } else if k == 3 {
        Section::Type
    } else if k == 4 {
        Section::Trait
    } else if k == 5 {
        Section::Impl
    } else if k == 6 {
        Section::Function
    } else if k == 7 {
        Section::Class
    } else if k == 8 {
        Section::Module
    } else {
        Section::Macro
    }
}

/// The heading of a section.
pub open spec fn header_of(s: Section) -> Seq<char> {
    match s {
        Section::Import => "imports:"@,
        Section::Constant => "consts:"@,
        Section::Expression => "exprs:"@,
        Section::Type => "types:"@,
        Section::Trait => "traits:"@,
        Section::Impl => "impls:"@,
        Section::Function => "fns:"@,
        Section::Class => "classes:"@,
        Section::Module => "mod:"@,
        Section::Macro => "macros:"@,
    }
}

impl Section {
    /// The heading of the section, such as "fns:".
    pub fn header(self) -> (r: &'static str)
        ensures
            r@ == header_of(self),
    {
        match self {
            Section::Import => "imports:",
            Section::Constant => "consts:",
            Section::Expression => "exprs:",
            Section::Type => "types:",
            Section::Trait => "traits:",
            Section::Impl => "impls:",
            Section::Function => "fns:",
            Section::Class => "classes:",
            Section::Module => "mod:",
            Section::Macro => "macros:",
        }
    }
}

/// The section printed in place `k` (below 10).
fn section_at(k: usize) -> (s: Section)
    requires
        k < 10,
    ensures
        s == section_of_rank(k as nat),
{
    if k == 0 {
        Section::Import
    } else if k == 1 {
        Section::Constant
    } else if k == 2 {
        Section::Expression
    } else if k == 3 {
        Section::Type
    } else if k == 4 {
        Section::Trait
    } else if k == 5 {
        Section::Impl
    } else if k == 6 {
        Section::Function
    } else if k == 7 {
        Section::Class
    } else if k == 8 {
        Section::Module
    } else {
        Section::Macro
    }
}

/// One entry of a skeleton: its section, its lines (1-based), its text,
/// the lines listed under it, the attributes printed above it, what its
/// body does and the first line of its doc comment.
pub struct SkeletonEntry {
    pub section: Section,
    pub line_start: usize,
    pub line_end: usize,
    pub text: String,
    pub children: Vec<String>,
    pub attrs: Vec<String>,
    pub insights: BodyInsights,
    pub doc: Option<String>,
}

/// The public surface of a file: its public types and functions.
pub struct PublicApi {
    pub types: Vec<String>,
    pub functions: Vec<String>,
}

/// What an entry holds, as texts and numbers: its section, its lines, its
/// text, the lines under it, the attributes above it, its body summary
/// lines and its doc line.
pub struct EntryView {
    pub section: Section,
    pub line_start: nat,
    pub line_end: nat,
    pub text: Seq<char>,
    pub children: Seq<Seq<char>>,
    pub attrs: Seq<Seq<char>>,
    pub insights: Seq<Seq<char>>,
    pub doc: Option<Seq<char>>,
}

impl View for SkeletonEntry {
    type V = EntryView;

    open spec fn view(&self) -> EntryView {
        EntryView {
            section: self.section,
            line_start: self.line_start as nat,
            line_end: self.line_end as nat,
            text: self.text@,
            children: views(self.children@),
            attrs: views(self.attrs@),
            insights: insight_lines(self.insights),
            doc: match self.doc {
                Some(d) => Some(d@),
                None => None,
            },
        }
    }
}

/// The views of the entries `es`.
pub open spec fn entry_views(es: Seq<SkeletonEntry>) -> Seq<EntryView> {
    es.map_values(|e: SkeletonEntry| e@)
}

/// Each of `ls` on a line of its own after `prefix`.
pub open spec fn lines_with(prefix: Seq<char>, ls: Seq<Seq<char>>) -> Seq<char>
    decreases ls.len(),
{
    if ls.len() == 0 {
        Seq::empty()
    } else {
        lines_with(prefix, ls.drop_last()) + prefix + ls.last() + "\n"@
    }
}

/// The lines of one entry: its attributes, its text with its line range,
/// its doc line, its children and its body summary.
pub open spec fn entry_text(e: EntryView) -> Seq<char> {
    lines_with("  "@, e.attrs) + "  "@ + e.text + " "@ + range_text(e.line_start, e.line_end)
        + "\n"@ + match e.doc {
        Some(d) => "    /// "@ + d + "\n"@,
        None => Seq::<char>::empty(),
    } + lines_with("    "@, e.children) + lines_with("    "@, e.insights)
}

/// The entries of `es` in section `s`, in order.
pub open spec fn of_section(es: Seq<EntryView>, s: Section) -> Seq<EntryView>
    decreases es.len(),
{
    if es.len() == 0 {
        Seq::empty()
    } else if es.last().section == s {
        of_section(es.drop_last(), s).push(es.last())
    } else {
        of_section(es.drop_last(), s)
    }
}

/// The lines of the entries `es`.
pub open spec fn entries_text(es: Seq<EntryView>) -> Seq<char>
    decreases es.len(),
{
    if es.len() == 0 {
        Seq::empty()
    } else {
        entries_text(es.drop_last()) + entry_text(es.last())
    }
}

/// A blank line before a new block, unless nothing was written yet.
pub open spec fn sep_for(acc: Seq<char>) -> Seq<char> {
    if acc.len() == 0 {
        Seq::empty()
    } else {
        "\n"@
    }
}

/// The smallest first line of the non-empty `es`.
pub open spec fn min_start(es: Seq<EntryView>) -> nat
    decreases es.len(),
{
    if es.len() <= 1 {
        if es.len() == 1 {
            es[0].line_start
        } else {
            0
        }
    } else {
        let m = min_start(es.drop_last());
        if (es.last().line_start) < m {
            es.last().line_start
        } else {
            m
        }
    }
}

/// The largest last line of the non-empty `es`.
pub open spec fn max_end(es: Seq<EntryView>) -> nat
    decreases es.len(),
{
    if es.len() <= 1 {
        if es.len() == 1 {
            es[0].line_end
        } else {
            0
        }
    } else {
        let m = max_end(es.drop_last());
        if (es.last().line_end) > m {
            es.last().line_end
        } else {
            m
        }
    }
}

/// The root and the rest of an import text split at its first "::".
pub open spec fn split_root(t: Seq<char>) -> Option<(Seq<char>, Seq<char>)> {
    match find_at(t, "::"@, 0) {
        Some(i) => Some((t.take(i), t.skip(i + 2))),
        None => None,
    }
}

/// The trimmed, non-empty texts among `ps`.
pub open spec fn nonempty_trimmed(ps: Seq<Seq<char>>) -> Seq<Seq<char>>
    decreases ps.len(),
{
    if ps.len() == 0 {
        Seq::empty()
    } else if trim(ps.last()).len() > 0 {
        nonempty_trimmed(ps.drop_last()).push(trim(ps.last()))
    } else {
        nonempty_trimmed(ps.drop_last())
    }
}

/// The items an import names after its root: those of a braced group, or
/// the rest itself.
pub open spec fn import_parts(rest: Seq<char>) -> Seq<Seq<char>> {
    if rest.len() >= 2 && rest[0] == '{' && rest.last() == '}' {
        nonempty_trimmed(split_str(rest.subrange(1, rest.len() - 1), ","@))
    } else {
        seq![rest]
    }
}

/// The first entry of `cons` from position `i` on whose root is `root`.
pub open spec fn find_root(cons: Seq<(Seq<char>, Seq<Seq<char>>)>, root: Seq<char>, i: int) -> Option<int>
    decreases cons.len() - i,
{
    if i < 0 || i >= cons.len() {
        None
    } else if cons[i].0 == root {
        Some(i)
    } else {
        find_root(cons, root, i + 1)
    }
}

/// `cons` with the import text `t` added: a text without "::" stands
/// alone; otherwise its items join those of the first entry with its root.
pub open spec fn add_import(cons: Seq<(Seq<char>, Seq<Seq<char>>)>, t: Seq<char>) -> Seq<
    (Seq<char>, Seq<Seq<char>>),
> {
    match split_root(t) {
        None => cons.push((t, Seq::empty())),
        Some((root, rest)) => {
            let parts = import_parts(trim(rest));
            match find_root(cons, root, 0) {
                Some(j) => cons.update(j, (root, cons[j].1 + parts)),
                None => cons.push((root, parts)),
            }
        },
    }
}

/// The imports `es` consolidated by root, in order of first appearance.
pub open spec fn consolidate(es: Seq<EntryView>) -> Seq<(Seq<char>, Seq<Seq<char>>)>
    decreases es.len(),
{
    if es.len() == 0 {
        Seq::empty()
    } else {
        add_import(consolidate(es.drop_last()), es.last().text)
    }
}

/// The line of one consolidated import.
pub open spec fn import_line(root: Seq<char>, parts: Seq<Seq<char>>) -> Seq<char> {
    if parts.len() == 0 {
        "  "@ + root + "\n"@
    } else if parts.len() == 1 {
        "  "@ + root + "::"@ + parts[0] + "\n"@
    } else {
        "  "@ + root + "::{"@ + join(parts, ", "@) + "}\n"@
    }
}

/// The lines of the consolidated imports `cons`.
pub open spec fn import_lines(cons: Seq<(Seq<char>, Seq<Seq<char>>)>) -> Seq<char>
    decreases cons.len(),
{
    if cons.len() == 0 {
        Seq::empty()
    } else {
        import_lines(cons.drop_last()) + import_line(cons.last().0, cons.last().1)
    }
}

/// The imports block after `acc`: its heading with the lines the imports
/// span, and the consolidated imports.
pub open spec fn imports_block(acc: Seq<char>, items: Seq<EntryView>) -> Seq<char> {
    acc + sep_for(acc) + "imports: "@ + range_text(min_start(items), max_end(items)) + "\n"@
        + import_lines(consolidate(items))
}

/// `acc` followed by the block of the section printed in place `k`, if it
/// has entries.
pub open spec fn section_block(acc: Seq<char>, es: Seq<EntryView>, k: nat) -> Seq<char> {
    let items = of_section(es, section_of_rank(k));
    if items.len() == 0 {
        acc
    } else if k == 0 {
        imports_block(acc, items)
    } else {
        acc + sep_for(acc) + header_of(section_of_rank(k)) + "\n"@ + entries_text(items)
    }
}

/// `acc` followed by the blocks of the sections from place `k` on.
pub open spec fn sections_from(acc: Seq<char>, es: Seq<EntryView>, k: nat) -> Seq<char>
    decreases 10 - k,
{
    if k >= 10 {
        acc
    } else {
        sections_from(section_block(acc, es, k), es, k + 1)
    }
}

/// The smallest first line of the non-empty `ts`.
pub open spec fn min_first(ts: Seq<(usize, usize)>) -> nat
    decreases ts.len(),
{
    if ts.len() <= 1 {
        if ts.len() == 1 {
            ts[0].0 as nat
        } else {
            0
        }
    } else {
        let m = min_first(ts.drop_last());
        if (ts.last().0 as nat) < m {
            ts.last().0 as nat
        } else {
            m
        }
    }
}

/// The largest last line of the non-empty `ts`.
pub open spec fn max_second(ts: Seq<(usize, usize)>) -> nat
    decreases ts.len(),
{
    if ts.len() <= 1 {
        if ts.len() == 1 {
            ts[0].1 as nat
        } else {
            0
        }
    } else {
        let m = max_second(ts.drop_last());
        if (ts.last().1 as nat) > m {
            ts.last().1 as nat
        } else {
            m
        }
    }
}

/// The skeleton text: the module doc line, the sections in order, and the
/// lines that tests span.
pub open spec fn skeleton_text(
    es: Seq<EntryView>,
    tests: Seq<(usize, usize)>,
    module_doc: Option<(usize, usize)>,
) -> Seq<char> {
    let a0 = match module_doc {
        Some((s, e)) => "module doc: "@ + range_text(s as nat, e as nat) + "\n"@,
        None => Seq::empty(),
    };
    let a1 = sections_from(a0, es, 0);
    if tests.len() == 0 {
        a1
    } else {
        a1 + sep_for(a1) + "tests: "@ + range_text(min_first(tests), max_second(tests)) + "\n"@
    }
}

/// The consolidated imports as texts.
pub open spec fn cons_view(v: Seq<(Vec<char>, Vec<Vec<char>>)>) -> Seq<(Seq<char>, Seq<Seq<char>>)> {
    v.map_values(|p: (Vec<char>, Vec<Vec<char>>)| (p.0@, cviews(p.1@)))
}

/// Appends each of `ls` on a line of its own after `prefix`.
fn push_lines(out: &mut Vec<char>, prefix: &str, ls: &Vec<String>)
    ensures
        final(out)@ == old(out)@ + lines_with(prefix@, views(ls@)),
{
    let ghost o0 = out@;
    let ghost vs = views(ls@);
    let mut i: usize = 0;
    assert(vs.take(0) =~= Seq::<Seq<char>>::empty());
    assert(out@ =~= o0 + lines_with(prefix@, vs.take(0)));
    while i < ls.len()
        invariant
            vs == views(ls@),
            i <= ls@.len(),
            out@ == o0 + lines_with(prefix@, vs.take(i as int)),
        decreases ls@.len() - i,
    {
        push_str(out, prefix);
        let c = chars_of(ls[i].as_str());
        push_all(out, c.as_slice());
        push_str(out, "\n");
        assert(vs.take(i + 1).drop_last() =~= vs.take(i as int));
        i += 1;
        assert(out@ =~= o0 + lines_with(prefix@, vs.take(i as int)));
    }
    assert(vs.take(i as int) =~= vs);
}

/// Appends the lines of one entry.
fn push_entry_text(out: &mut Vec<char>, e: &SkeletonEntry)
    ensures
        final(out)@ == old(out)@ + entry_text(e@),
{
    let ghost o0 = out@;
    push_lines(out, "  ", &e.attrs);
    push_str(out, "  ");
    let t = chars_of(e.text.as_str());
    push_all(out, t.as_slice());
    push_str(out, " ");
    let r = line_range(e.line_start, e.line_end);
    let rc = chars_of(r.as_str());
    push_all(out, rc.as_slice());
    push_str(out, "\n");
    match &e.doc {
        Some(d) => {
            push_str(out, "    /// ");
            let dc = chars_of(d.as_str());
            push_all(out, dc.as_slice());
            push_str(out, "\n");
        },
        None => {},
    }
    push_lines(out, "    ", &e.children);
    let ins = e.insights.format_lines();
    push_lines(out, "    ", &ins);
    assert(out@ =~= o0 + entry_text(e@));
}

/// A copy of a list of texts.
fn copy_texts(v: &Vec<Vec<char>>) -> (r: Vec<Vec<char>>)
    ensures
        cviews(r@) == cviews(v@),
{
    let mut r: Vec<Vec<char>> = Vec::new();
    let mut i: usize = 0;
    while i < v.len()
        invariant
            i <= v@.len(),
            cviews(r@) == cviews(v@).take(i as int),
        decreases v@.len() - i,
    {
        let c = copy_range(v[i].as_slice(), 0, v[i].len());
        assert(c@ =~= v@[i as int]@);
        let ghost r0 = cviews(r@);
        r.push(c);
        assert(cviews(r@) =~= r0.push(c@));
        assert(cviews(v@).take(i + 1) =~= cviews(v@).take(i as int).push(v@[i as int]@));
        i += 1;
    }
    assert(cviews(v@).take(i as int) =~= cviews(v@));
    r
}

/// The items an import names after its root.
fn import_parts_exec(rest: &[char]) -> (r: Vec<Vec<char>>)
    ensures
        cviews(r@) == import_parts(rest@),
{
    let n = rest.len();
    if n >= 2 && rest[0] == '{' && rest[n - 1] == '}' {
        let inner = copy_range(rest, 1, n - 1);
        let comma = chars_of(",");
        proof {
            reveal_strlit(",");
        }
        let ps = split_exec(inner.as_slice(), comma.as_slice());
        let ghost sp = split_str(inner@, ","@);
        assert(cviews(ps@) =~= sp);
        let mut r: Vec<Vec<char>> = Vec::new();
        let mut i: usize = 0;
        while i < ps.len()
            invariant
                sp == cviews(ps@),
                i <= ps@.len(),
                cviews(r@) == nonempty_trimmed(sp.take(i as int)),
            decreases ps@.len() - i,
        {
            let t = trimmed(ps[i].as_slice());
            assert(sp.take(i + 1).drop_last() =~= sp.take(i as int));
            assert(t@ == trim(sp[i as int]));
            if t.len() > 0 {
                r.push(t);
            }
            i += 1;
            assert(cviews(r@) =~= nonempty_trimmed(sp.take(i as int)));
        }
        assert(sp.take(i as int) =~= sp);
        assert(inner@ =~= rest@.subrange(1, rest@.len() - 1));
        r
    } else {
        let mut r: Vec<Vec<char>> = Vec::new();
        let whole = copy_range(rest, 0, n);
        assert(whole@ =~= rest@);
        r.push(whole);
        assert(cviews(r@) =~= seq![rest@]);
        r
    }
}

/// Adds the import text `t` to the consolidated imports.
fn add_import_exec(cons: &mut Vec<(Vec<char>, Vec<Vec<char>>)>, t: &[char])
    ensures
        cons_view(final(cons)@) == add_import(cons_view(old(cons)@), t@),
{
    let ghost c0 = cons_view(cons@);
    let sep = chars_of("::");
    proof {
        reveal_strlit("::");
    }
    let sp = sep.as_slice();
    assert(sp@ == "::"@);
    assert(sp@.len() == 2);
    match find_from(t, sp, 0) {
        None => {
            let whole = copy_range(t, 0, t.len());
            assert(whole@ =~= t@);
            let empty: Vec<Vec<char>> = Vec::new();
            assert(cviews(empty@) =~= Seq::<Seq<char>>::empty());
            cons.push((whole, empty));
            assert(cons_view(cons@) =~= c0.push((t@, Seq::empty())));
            assert(split_root(t@) is None);
        },
        Some(i) => {
            assert(occurs_at(t@, sp@, i as int));
            assert(i + 2 <= t@.len());
            assert(split_root(t@) == Some((t@.take(i as int), t@.skip(i + 2))));
            let root = copy_range(t, 0, i);
            let rest = copy_range(t, i + 2, t.len());
            assert(root@ =~= t@.take(i as int));
            assert(rest@ =~= t@.skip(i + 2));
            let r = trimmed(rest.as_slice());
            let parts = import_parts_exec(r.as_slice());
            let mut j: usize = 0;
            let mut found: bool = false;
            while !found && j < cons.len()
                invariant
                    c0 == cons_view(cons@),
                    j <= cons@.len(),
                    find_root(c0, root@, 0) == (if found {
                        Some(j as int)
                    } else {
                        find_root(c0, root@, j as int)
                    }),
                    found ==> j < cons@.len(),
                decreases cons@.len() - j, if found { 0int } else { 1int },
            {
                assert(c0[j as int].0 == cons@[j as int].0@);
                if chars_eq(cons[j].0.as_slice(), root.as_slice()) {
                    found = true;
                } else {
                    j += 1;
                }
            }
            if found {
                let mut merged = copy_texts(&cons[j].1);
                let mut k: usize = 0;
                let ghost m0 = cviews(merged@);
                while k < parts.len()
                    invariant
                        k <= parts@.len(),
                        cviews(merged@) == m0 + cviews(parts@).take(k as int),
                    decreases parts@.len() - k,
                {
                    let c = copy_range(parts[k].as_slice(), 0, parts[k].len());
                    assert(c@ =~= parts@[k as int]@);
                    let ghost g0 = cviews(merged@);
                    merged.push(c);
                    assert(cviews(merged@) =~= g0.push(c@));
                    assert(cviews(parts@).take(k + 1) =~= cviews(parts@).take(k as int).push(parts@[k as int]@));
                    assert(cviews(merged@) =~= m0 + cviews(parts@).take(k + 1));
                    k += 1;
                }
                assert(cviews(parts@).take(k as int) =~= cviews(parts@));
                cons.set(j, (root, merged));
                assert(cons_view(cons@) =~= c0.update(j as int, (t@.take(i as int), c0[j as int].1 + import_parts(trim(t@.skip(i + 2))))));
            } else {
                cons.push((root, parts));
                assert(cons_view(cons@) =~= c0.push((t@.take(i as int), import_parts(trim(t@.skip(i + 2))))));
            }
        },
    }
}

/// Appends the imports block for the import entries of `es`, if any.
fn push_imports_block(out: &mut Vec<char>, es: &[SkeletonEntry])
    ensures
        final(out)@ == section_block(old(out)@, entry_views(es@), 0),
{
    let ghost ev = entry_views(es@);
    let ghost imps = of_section(ev, Section::Import);
    let mut n: usize = 0;
    let mut lo: usize = 0;
    let mut hi: usize = 0;
    let mut cons: Vec<(Vec<char>, Vec<Vec<char>>)> = Vec::new();
    let mut i: usize = 0;
    assert(ev.take(0) =~= Seq::<EntryView>::empty());
    assert(cons_view(cons@) =~= Seq::<(Seq<char>, Seq<Seq<char>>)>::empty());
    while i < es.len()
        invariant
            ev == entry_views(es@),
            i <= ev.len(),
            n == of_section(ev.take(i as int), Section::Import).len(),
            n <= i,
            n > 0 ==> lo == min_start(of_section(ev.take(i as int), Section::Import)),
            n > 0 ==> hi == max_end(of_section(ev.take(i as int), Section::Import)),
            cons_view(cons@) == consolidate(of_section(ev.take(i as int), Section::Import)),
        decreases ev.len() - i,
    {
        let e = &es[i];
        let ghost before = of_section(ev.take(i as int), Section::Import);
        assert(ev.take(i + 1).drop_last() =~= ev.take(i as int));
        assert(ev.take(i + 1).last() == ev[i as int]);
        assert(ev[i as int] == e@);
        if e.section == Section::Import {
            if n == 0 || e.line_start < lo {
                lo = e.line_start;
            }
            if n == 0 || e.line_end > hi {
                hi = e.line_end;
            }
            n += 1;
            let t = chars_of(e.text.as_str());
            add_import_exec(&mut cons, t.as_slice());
            assert(of_section(ev.take(i + 1), Section::Import) == before.push(e@));
            assert(before.push(e@).drop_last() =~= before);
        } else {
            assert(of_section(ev.take(i + 1), Section::Import) == before);
        }
        i += 1;
    }
    assert(ev.take(i as int) =~= ev);
    assert(section_of_rank(0) == Section::Import);
    if n > 0 {
        let ghost acc = out@;
        if out.len() > 0 {
            push_str(out, "\n");
        }
        push_str(out, "imports: ");
        let r = line_range(lo, hi);
        let rc = chars_of(r.as_str());
        push_all(out, rc.as_slice());
        push_str(out, "\n");
        let ghost a1 = out@;
        let ghost cv = cons_view(cons@);
        let mut k: usize = 0;
        assert(a1 =~= a1 + import_lines(cv.take(0)));
        while k < cons.len()
            invariant
                cv == cons_view(cons@),
                k <= cons@.len(),
                out@ == a1 + import_lines(cv.take(k as int)),
            decreases cons@.len() - k,
        {
            let root = &cons[k].0;
            let parts = &cons[k].1;
            push_str(out, "  ");
            push_all(out, root.as_slice());
            if parts.len() == 0 {
                push_str(out, "\n");
            } else if parts.len() == 1 {
                push_str(out, "::");
                push_all(out, parts[0].as_slice());
                push_str(out, "\n");
            } else {
                push_str(out, "::{");
                let sep = chars_of(", ");
                let j = join_exec(parts.as_slice(), parts.len(), sep.as_slice());
                assert(parts@.take(parts@.len() as int).map_values(|v: Vec<char>| v@) =~= cviews(parts@));
                push_all(out, j.as_slice());
                push_str(out, "}\n");
            }
            assert(cv.take(k + 1).drop_last() =~= cv.take(k as int));
            assert(cv[k as int] == (root@, cviews(parts@)));
            k += 1;
            assert(out@ =~= a1 + import_lines(cv.take(k as int)));
        }
        assert(cv.take(k as int) =~= cv);
        assert(out@ =~= imports_block(acc, imps));
    }
}

/// Appends the block of the section printed in place `k` (from 1 on), if
/// it has entries.
fn push_section_block(out: &mut Vec<char>, es: &[SkeletonEntry], k: usize)
    requires
        1 <= k < 10,
    ensures
        final(out)@ == section_block(old(out)@, entry_views(es@), k as nat),
{
    let ghost ev = entry_views(es@);
    let s = section_at(k);
    let mut body: Vec<char> = Vec::new();
    let mut n: usize = 0;
    let mut i: usize = 0;
    assert(ev.take(0) =~= Seq::<EntryView>::empty());
    while i < es.len()
        invariant
            ev == entry_views(es@),
            s == section_of_rank(k as nat),
            i <= ev.len(),
            n == of_section(ev.take(i as int), s).len(),
            n <= i,
            body@ == entries_text(of_section(ev.take(i as int), s)),
        decreases ev.len() - i,
    {
        let e = &es[i];
        let ghost before = of_section(ev.take(i as int), s);
        assert(ev.take(i + 1).drop_last() =~= ev.take(i as int));
        assert(ev.take(i + 1).last() == ev[i as int]);
        assert(ev[i as int] == e@);
        if e.section == s {
            push_entry_text(&mut body, e);
            n += 1;
            assert(of_section(ev.take(i + 1), s) == before.push(e@));
            assert(before.push(e@).drop_last() =~= before);
        } else {
            assert(of_section(ev.take(i + 1), s) == before);
        }
        i += 1;
    }
    assert(ev.take(i as int) =~= ev);
    if n > 0 {
        let ghost acc = out@;
        if out.len() > 0 {
            push_str(out, "\n");
        }
        push_str(out, s.header());
        push_str(out, "\n");
        push_all(out, body.as_slice());
        assert(out@ =~= section_block(acc, ev, k as nat));
    }
}

/// Formats a skeleton: "module doc: [a-b]" when there is one; the entries
/// grouped by section in section order, each section under its heading and
/// separated by a blank line, imports consolidated by root; and the lines
/// the tests span.
pub fn format_skeleton(
    entries: &[SkeletonEntry],
    test_lines: &[(usize, usize)],
    module_doc: Option<(usize, usize)>,
) -> (r: String)
    ensures
        r@ == skeleton_text(entry_views(entries@), test_lines@, module_doc),
{
    let mut out: Vec<char> = Vec::new();
    match module_doc {
        Some((s, e)) => {
            push_str(&mut out, "module doc: ");
            let r = line_range(s, e);
            let rc = chars_of(r.as_str());
            push_all(&mut out, rc.as_slice());
            push_str(&mut out, "\n");
        },
        None => {},
    }
    let ghost a0 = out@;
    assert(a0 =~= match module_doc {
        Some((s, e)) => "module doc: "@ + range_text(s as nat, e as nat) + "\n"@,
        None => Seq::<char>::empty(),
    });
    push_imports_block(&mut out, entries);
    let mut k: usize = 1;
    while k < 10
        invariant
            1 <= k <= 10,
            sections_from(out@, entry_views(entries@), k as nat) == sections_from(a0, entry_views(entries@), 0),
        decreases 10 - k,
    {
        push_section_block(&mut out, entries, k);
        k += 1;
    }
    let ghost a1 = out@;
    if test_lines.len() > 0 {
        let mut lo: usize = test_lines[0].0;
        let mut hi: usize = test_lines[0].1;
        let mut i: usize = 1;
        assert(test_lines@.take(1) =~= seq![test_lines@[0]]);
        while i < test_lines.len()
            invariant
                1 <= i <= test_lines@.len(),
                lo == min_first(test_lines@.take(i as int)),
                hi == max_second(test_lines@.take(i as int)),
            decreases test_lines@.len() - i,
        {
            assert(test_lines@.take(i + 1).drop_last() =~= test_lines@.take(i as int));
            let (a, b) = test_lines[i];
            if a < lo {
                lo = a;
            }
            if b > hi {
                hi = b;
            }
            i += 1;
        }
        assert(test_lines@.take(i as int) =~= test_lines@);
        if out.len() > 0 {
            push_str(&mut out, "\n");
        }
        push_str(&mut out, "tests: ");
        let r = line_range(lo, hi);
        let rc = chars_of(r.as_str());
        push_all(&mut out, rc.as_slice());
        push_str(&mut out, "\n");
    }
    assert(out@ =~= skeleton_text(entry_views(entries@), test_lines@, module_doc));
    string_of(out.as_slice())
}

} // verus!
