//! Answering what a file depends on, what uses it (to a given depth) and
//! which external packages it imports.
use vstd::prelude::*;

use crate::deps::filemap::{lookup_file, FileMap};
use crate::deps::sorted::{
    cviews, insert_sorted, lemma_is_sorted_set, sorted_set, strictly_sorted,
};
use crate::deps::{DepsGraph, FileImports, ImportInfo};
use crate::text::{ends_with, has_suffix, texts_of, chars_eq, chars_of, copy_range, decimal, decimal_of, join, join_exec, push_all, push_str, string_of, views};

verus! {

/// How many symbols of one import are listed before the rest is counted.
pub const SYMBOL_TRUNCATE_THRESHOLD: usize = 6;

/// The paths that the imports of `fi` resolve to, among the external
/// imports (`ext`) or among the internal ones (`!ext`).
pub open spec fn paths_where(fi: FileImports, ext: bool) -> Set<Seq<char>> {
    Set::new(
        |p: Seq<char>|
            exists|k: int|
                0 <= k < fi.imports@.len() && fi.imports@[k].external == ext
                    && #[trigger] fi.imports@[k].path@ == p,
    )
}

/// The import `imp` is internal, resolves to `p` and names the symbol `s`.
pub open spec fn names_symbol(imp: ImportInfo, p: Seq<char>, s: Seq<char>) -> bool {
    !imp.external && imp.path@ == p && views(imp.symbols@).contains(s)
}

/// The symbols that the internal imports of `fi` resolving to `p` name,
/// among the first `n` imports.
pub open spec fn syms_upto(fi: FileImports, p: Seq<char>, n: int) -> Set<Seq<char>> {
    Set::new(
        |s: Seq<char>|
            exists|k: int| 0 <= k < n && k < fi.imports@.len() && #[trigger] names_symbol(fi.imports@[k], p, s),
    )
}

/// The symbols that the internal imports of `fi` resolving to `p` name.
pub open spec fn syms_to(fi: FileImports, p: Seq<char>) -> Set<Seq<char>> {
    syms_upto(fi, p, fi.imports@.len() as int)
}

/// The files of `g` with an internal import that resolves to `t`, among
/// the first `n` entries.
pub open spec fn users_upto(g: Seq<(Seq<char>, FileImports)>, t: Seq<char>, n: int) -> Set<Seq<char>> {
    Set::new(
        |f: Seq<char>|
            exists|i: int|
                0 <= i < n && i < g.len() && #[trigger] g[i].0 == f && paths_where(g[i].1, false).contains(t),
    )
}

/// The files of `g` with an internal import that resolves to `t`.
pub open spec fn users_of(g: Seq<(Seq<char>, FileImports)>, t: Seq<char>) -> Set<Seq<char>> {
    users_upto(g, t, g.len() as int)
}

/// The symbols that the file `u` of `g` imports from `t`.
pub open spec fn user_syms(g: Seq<(Seq<char>, FileImports)>, u: Seq<char>, t: Seq<char>) -> Set<Seq<char>> {
    match lookup_file(g, u) {
        Some(fi) => syms_to(fi, t),
        None => Set::empty(),
    }
}

/// A symbol list: joined with ", ", and beyond the threshold cut there and
/// followed by how many were left out.
pub open spec fn fmt_syms(syms: Seq<Seq<char>>) -> Seq<char> {
    if syms.len() <= SYMBOL_TRUNCATE_THRESHOLD {
        join(syms, ", "@)
    } else {
        join(syms.take(SYMBOL_TRUNCATE_THRESHOLD as int), ", "@) + ", ... +"@ + decimal(
            (syms.len() - SYMBOL_TRUNCATE_THRESHOLD) as nat,
        ) + " more"@
    }
}

/// One listed file: the indent, the file, its symbols in brackets when it
/// has any, and a line break.
pub open spec fn entry_line(indent: Seq<char>, name: Seq<char>, syms: Seq<Seq<char>>) -> Seq<char> {
    if syms.len() == 0 {
        indent + name + "\n"@
    } else {
        indent + name + " ("@ + fmt_syms(syms) + ")\n"@
    }
}

/// The indent of the users found at `depth`: two spaces at the first
/// level, deeper levels two spaces per level and an arrow.
pub open spec fn indent_of(depth: int) -> Seq<char> {
    if depth == 1 {
        "  "@
    } else {
        Seq::new((2 * depth) as nat, |i: int| ' ') + "\u{2192} "@
    }
}

/// The lines for the internal dependencies `ps` of `fi`.
pub open spec fn depends_lines(fi: FileImports, ps: Seq<Seq<char>>) -> Seq<char>
    decreases ps.len(),
{
    if ps.len() == 0 {
        Seq::empty()
    } else {
        depends_lines(fi, ps.drop_last()) + entry_line(
            "  "@,
            ps.last(),
            sorted_set(syms_to(fi, ps.last())),
        )
    }
}

/// The lines for the external dependencies `es`.
pub open spec fn external_lines(es: Seq<Seq<char>>) -> Seq<char>
    decreases es.len(),
{
    if es.len() == 0 {
        Seq::empty()
    } else {
        external_lines(es.drop_last()) + "  "@ + es.last() + "\n"@
    }
}

/// The users `users[i..]` of `t` at depth `cur`, each followed by its own
/// users while `cur < max`; a user already on the path from the queried
/// file is marked as a cycle and not followed.
pub open spec fn used_by_lines(
    g: Seq<(Seq<char>, FileImports)>,
    users: Seq<Seq<char>>,
    i: int,
    t: Seq<char>,
    max: int,
    cur: int,
    visited: Set<Seq<char>>,
) -> Seq<char>
    decreases max - cur, users.len() - i,
{
    if i < 0 || i >= users.len() {
        Seq::empty()
    } else {
        let u = users[i];
        let rest = used_by_lines(g, users, i + 1, t, max, cur, visited);
        if visited.contains(u) {
            indent_of(cur) + u + " (cycle)\n"@ + rest
        } else {
            let line = entry_line(indent_of(cur), u, sorted_set(user_syms(g, u, t)));
            if cur < max {
                line + used_by_lines(
                    g,
                    sorted_set(users_of(g, u)),
                    0,
                    u,
                    max,
                    cur + 1,
                    visited.insert(u),
                ) + rest
            } else {
                line + rest
            }
        }
    }
}

/// The users of `t` from depth `cur` on, down to depth `max`.
pub open spec fn used_by_block(
    g: Seq<(Seq<char>, FileImports)>,
    t: Seq<char>,
    max: int,
    cur: int,
    visited: Set<Seq<char>>,
) -> Seq<char> {
    if cur > max {
        Seq::empty()
    } else {
        used_by_lines(g, sorted_set(users_of(g, t)), 0, t, max, cur, visited)
    }
}

/// The heading of the users section.
pub open spec fn used_by_header(depth: nat) -> Seq<char> {
    if depth > 1 {
        "used_by (depth="@ + decimal(depth) + "):\n"@
    } else {
        "used_by:\n"@
    }
}

/// The position of the last `/` among the first `n` characters of `p`.
pub open spec fn last_slash(p: Seq<char>, n: int) -> Option<int>
    decreases n,
{
    if n <= 0 || n > p.len() {
        None
    } else if p[n - 1] == '/' {
        Some(n - 1)
    } else {
        last_slash(p, n - 1)
    }
}

/// The directory part of a path: what comes before its last `/`, nothing
/// when it has none.
pub open spec fn dir_part(p: Seq<char>) -> Seq<char> {
    match last_slash(p, p.len() as int) {
        Some(i) => p.take(i),
        None => Seq::empty(),
    }
}

/// A Go source file.
pub open spec fn is_go(p: Seq<char>) -> bool {
    ends_with(p, ".go"@)
}

/// `file` is a Go file and every Go file of `g` lies in its directory: the
/// repository is a single-package Go library.
pub open spec fn single_go_package(g: Seq<(Seq<char>, FileImports)>, file: Seq<char>) -> bool {
    &&& is_go(file)
    &&& forall|i: int| 0 <= i < g.len() && is_go(#[trigger] g[i].0) ==> dir_part(g[i].0) == dir_part(file)
}

/// The Go files of `g` other than `file`.
pub open spec fn go_siblings(g: Seq<(Seq<char>, FileImports)>, file: Seq<char>) -> Set<Seq<char>> {
    Set::new(
        |p: Seq<char>| exists|i: int| 0 <= i < g.len() && #[trigger] g[i].0 == p && is_go(p) && p != file,
    )
}

/// The co-package section: in a single-package Go library, the other Go
/// files of the package, sorted, one per line; nothing otherwise, or when
/// there are none.
pub open spec fn co_package_lines(g: Seq<(Seq<char>, FileImports)>, file: Seq<char>) -> Seq<char> {
    let sib = sorted_set(go_siblings(g, file));
    if single_go_package(g, file) && sib.len() > 0 {
        "co-package:\n"@ + external_lines(sib)
    } else {
        Seq::empty()
    }
}

/// The answer to a query on `file` in `g` to depth `depth`.
pub open spec fn query_text(g: Seq<(Seq<char>, FileImports)>, file: Seq<char>, depth: nat) -> Seq<char> {
    let deps = match lookup_file(g, file) {
        Some(fi) => depends_lines(fi, sorted_set(paths_where(fi, false))),
        None => Seq::empty(),
    };
    let ext = match lookup_file(g, file) {
        Some(fi) => external_lines(sorted_set(paths_where(fi, true))),
        None => Seq::empty(),
    };
    "depends_on:\n"@ + deps + used_by_header(depth) + used_by_block(
        g,
        file,
        depth as int,
        1,
        set![file],
    ) + "external:\n"@ + ext + co_package_lines(g, file)
}

/// Adds the texts of `items` to the strictly increasing `r`.
fn insert_all_sorted(r: &mut Vec<Vec<char>>, items: &Vec<String>)
    requires
        strictly_sorted(cviews(old(r)@)),
    ensures
        strictly_sorted(cviews(final(r)@)),
        cviews(final(r)@).to_set() == cviews(old(r)@).to_set().union(views(items@).to_set()),
{
    let ghost s0 = cviews(r@).to_set();
    let mut j: usize = 0;
    while j < items.len()
        invariant
            j <= items@.len(),
            strictly_sorted(cviews(r@)),
            cviews(r@).to_set() == s0.union(views(items@).take(j as int).to_set()),
        decreases items@.len() - j,
    {
        let c = chars_of(items[j].as_str());
        let ghost before = cviews(r@).to_set();
        insert_sorted(r, c.as_slice());
        proof {
            let vs = views(items@);
            let t0 = vs.take(j as int);
            let t1 = vs.take(j + 1);
            assert(t1 =~= t0.push(vs[j as int]));
            assert(t1.to_set() =~= t0.to_set().insert(vs[j as int])) by {
                assert forall|x: Seq<char>| t1.to_set().contains(x) implies t0.to_set().insert(
                    vs[j as int],
                ).contains(x) by {
                    let k = choose|k: int| 0 <= k < t1.len() && #[trigger] t1[k] == x;
                    if k < j {
                        assert(t0[k] == x);
                    }
                }
                assert forall|x: Seq<char>| t0.to_set().insert(vs[j as int]).contains(
                    x,
                ) implies t1.to_set().contains(x) by {
                    if x == vs[j as int] {
                        assert(t1[j as int] == x);
                    } else {
                        let k = choose|k: int| 0 <= k < t0.len() && #[trigger] t0[k] == x;
                        assert(t1[k] == x);
                    }
                }
            }
            assert(cviews(r@).to_set() =~= s0.union(vs.take(j + 1).to_set()));
        }
        j += 1;
    }
    assert(views(items@).take(items@.len() as int) =~= views(items@));
}

/// The symbols that the internal imports of `fi` resolving to `p` name,
/// sorted and without repeats.
fn syms_to_exec(fi: &FileImports, p: &[char]) -> (r: Vec<Vec<char>>)
    ensures
        cviews(r@) == sorted_set(syms_to(*fi, p@)),
{
    let mut r: Vec<Vec<char>> = Vec::new();
    let mut k: usize = 0;
    assert(cviews(r@).to_set() =~= syms_upto(*fi, p@, 0));
    while k < fi.imports.len()
        invariant
            k <= fi.imports@.len(),
            strictly_sorted(cviews(r@)),
            cviews(r@).to_set() == syms_upto(*fi, p@, k as int),
        decreases fi.imports@.len() - k,
    {
        let imp = &fi.imports[k];
        let pc = chars_of(imp.path.as_str());
        let hit = !imp.external && chars_eq(pc.as_slice(), p);
        let ghost before = cviews(r@).to_set();
        if hit {
            insert_all_sorted(&mut r, &imp.symbols);
        }
        proof {
            let ghost fv = *fi;
            assert(cviews(r@).to_set() =~= syms_upto(fv, p@, k + 1)) by {
                assert forall|s: Seq<char>| #[trigger] syms_upto(fv, p@, k + 1).contains(s) implies cviews(
                    r@,
                ).to_set().contains(s) by {
                    let kk = choose|kk: int|
                        0 <= kk < k + 1 && kk < fv.imports@.len() && #[trigger] names_symbol(
                            fv.imports@[kk],
                            p@,
                            s,
                        );
                    if kk < k {
                        assert(syms_upto(fv, p@, k as int).contains(s));
                    }
                }
                assert forall|s: Seq<char>| cviews(r@).to_set().contains(s) implies #[trigger] syms_upto(
                    fv,
                    p@,
                    k + 1,
                ).contains(s) by {
                    if before.contains(s) {
                        let kk = choose|kk: int|
                            0 <= kk < k && kk < fv.imports@.len() && #[trigger] names_symbol(
                                fv.imports@[kk],
                                p@,
                                s,
                            );
                        assert(names_symbol(fv.imports@[kk], p@, s));
                    } else {
                        assert(names_symbol(fv.imports@[k as int], p@, s));
                    }
                }
            }
        }
        k += 1;
    }
    proof {
        lemma_is_sorted_set(cviews(r@));
    }
    r
}

/// The paths of the external (`ext`) or internal imports of `fi`, sorted
/// and without repeats.
fn paths_sorted(fi: &FileImports, ext: bool) -> (r: Vec<Vec<char>>)
    ensures
        cviews(r@) == sorted_set(paths_where(*fi, ext)),
{
    let ghost fv = *fi;
    let mut r: Vec<Vec<char>> = Vec::new();
    let mut k: usize = 0;
    while k < fi.imports.len()
        invariant
            fv == *fi,
            k <= fi.imports@.len(),
            strictly_sorted(cviews(r@)),
            forall|p: Seq<char>|
                cviews(r@).to_set().contains(p) <==> exists|kk: int|
                    0 <= kk < k && fv.imports@[kk].external == ext && #[trigger] fv.imports@[kk].path@
                        == p,
        decreases fi.imports@.len() - k,
    {
        let imp = &fi.imports[k];
        if imp.external == ext {
            let pc = chars_of(imp.path.as_str());
            insert_sorted(&mut r, pc.as_slice());
        }
        proof {
            assert forall|p: Seq<char>|
                cviews(r@).to_set().contains(p) <==> exists|kk: int|
                    0 <= kk < k + 1 && fv.imports@[kk].external == ext && #[trigger] fv.imports@[kk].path@
                        == p by {
                if cviews(r@).to_set().contains(p) && p != fv.imports@[k as int].path@ {
                    let kk = choose|kk: int|
                        0 <= kk < k && fv.imports@[kk].external == ext && #[trigger] fv.imports@[kk].path@
                            == p;
                    assert(0 <= kk < k + 1);
                }
                if cviews(r@).to_set().contains(p) && p == fv.imports@[k as int].path@
                    && fv.imports@[k as int].external == ext {
                    assert(fv.imports@[k as int].path@ == p);
                }
            }
        }
        k += 1;
    }
    proof {
        assert(cviews(r@).to_set() =~= paths_where(fv, ext));
        lemma_is_sorted_set(cviews(r@));
    }
    r
}

/// The symbol list of `syms` as `fmt_syms` gives it.
fn fmt_syms_exec(syms: &Vec<Vec<char>>) -> (r: Vec<char>)
    ensures
        r@ == fmt_syms(cviews(syms@)),
{
    let sep = chars_of(", ");
    if syms.len() <= SYMBOL_TRUNCATE_THRESHOLD {
        let r = join_exec(syms.as_slice(), syms.len(), sep.as_slice());
        assert(syms@.take(syms@.len() as int).map_values(|v: Vec<char>| v@) =~= cviews(syms@));
        r
    } else {
        let mut r = join_exec(syms.as_slice(), SYMBOL_TRUNCATE_THRESHOLD, sep.as_slice());
        assert(syms@.take(SYMBOL_TRUNCATE_THRESHOLD as int).map_values(|v: Vec<char>| v@) =~= cviews(
            syms@,
        ).take(SYMBOL_TRUNCATE_THRESHOLD as int));
        push_str(&mut r, ", ... +");
        let d = decimal_of(syms.len() - SYMBOL_TRUNCATE_THRESHOLD);
        push_all(&mut r, d.as_slice());
        push_str(&mut r, " more");
        r
    }
}

/// Formats a symbol list: the symbols joined with ", "; past six, the
/// first six and how many more there are.
pub fn format_symbols(symbols: &[String]) -> (r: String)
    ensures
        r@ == fmt_syms(views(symbols@)),
{
    let t = texts_of(symbols);
    let c = fmt_syms_exec(&t);
    string_of(c.as_slice())
}

/// Appends one listed file to `out`.
fn push_entry(out: &mut Vec<char>, indent: &[char], name: &[char], syms: &Vec<Vec<char>>)
    ensures
        final(out)@ == old(out)@ + entry_line(indent@, name@, cviews(syms@)),
{
    push_all(out, indent);
    push_all(out, name);
    if syms.len() == 0 {
        push_str(out, "\n");
        assert(final(out)@ =~= old(out)@ + entry_line(indent@, name@, cviews(syms@)));
    } else {
        push_str(out, " (");
        let f = fmt_syms_exec(syms);
        push_all(out, f.as_slice());
        push_str(out, ")\n");
        assert(final(out)@ =~= old(out)@ + entry_line(indent@, name@, cviews(syms@)));
    }
}

/// Whether `fi` has an internal import that resolves to `p`.
fn imports_path(fi: &FileImports, p: &[char]) -> (b: bool)
    ensures
        b == paths_where(*fi, false).contains(p@),
{
    let mut k: usize = 0;
    while k < fi.imports.len()
        invariant
            k <= fi.imports@.len(),
            forall|kk: int|
                0 <= kk < k ==> !(!fi.imports@[kk].external && #[trigger] fi.imports@[kk].path@ == p@),
        decreases fi.imports@.len() - k,
    {
        let imp = &fi.imports[k];
        let pc = chars_of(imp.path.as_str());
        if !imp.external && chars_eq(pc.as_slice(), p) {
            assert(fi.imports@[k as int].path@ == p@);
            return true;
        }
        k += 1;
    }
    false
}

/// The files of `graph` with an internal import that resolves to `t`,
/// sorted.
fn users_sorted(graph: &FileMap, t: &[char]) -> (r: Vec<Vec<char>>)
    ensures
        cviews(r@) == sorted_set(users_of(graph@, t@)),
{
    let ghost g = graph@;
    let mut r: Vec<Vec<char>> = Vec::new();
    let mut i: usize = 0;
    assert(cviews(r@).to_set() =~= users_upto(g, t@, 0));
    while i < graph.len()
        invariant
            g == graph@,
            i <= g.len(),
            strictly_sorted(cviews(r@)),
            cviews(r@).to_set() == users_upto(g, t@, i as int),
        decreases g.len() - i,
    {
        let ghost before = cviews(r@).to_set();
        if imports_path(graph.imports_at(i), t) {
            let name = chars_of(graph.name_at(i).as_str());
            insert_sorted(&mut r, name.as_slice());
        }
        proof {
            assert(cviews(r@).to_set() =~= users_upto(g, t@, i + 1)) by {
                assert forall|f: Seq<char>| #[trigger] users_upto(g, t@, i + 1).contains(f) implies cviews(
                    r@,
                ).to_set().contains(f) by {
                    let ii = choose|ii: int|
                        0 <= ii < i + 1 && ii < g.len() && #[trigger] g[ii].0 == f && paths_where(
                            g[ii].1,
                            false,
                        ).contains(t@);
                    if ii < i {
                        assert(users_upto(g, t@, i as int).contains(f));
                    }
                }
                assert forall|f: Seq<char>| cviews(r@).to_set().contains(f) implies #[trigger] users_upto(
                    g,
                    t@,
                    i + 1,
                ).contains(f) by {
                    if before.contains(f) {
                        let ii = choose|ii: int|
                            0 <= ii < i && ii < g.len() && #[trigger] g[ii].0 == f && paths_where(
                                g[ii].1,
                                false,
                            ).contains(t@);
                        assert(g[ii].0 == f);
                    } else {
                        assert(g[i as int].0 == f);
                    }
                }
            }
        }
        i += 1;
    }
    proof {
        lemma_is_sorted_set(cviews(r@));
    }
    r
}

/// The indent of the users found at `depth`.
fn indent_exec(depth: u32) -> (r: Vec<char>)
    ensures
        r@ == indent_of(depth as int),
{
    if depth == 1 {
        chars_of("  ")
    } else {
        let mut r: Vec<char> = Vec::new();
        let mut i: u32 = 0;
        while i < depth
            invariant
                i <= depth,
                r@ == Seq::new((2 * i) as nat, |k: int| ' '),
            decreases depth - i,
        {
            r.push(' ');
            r.push(' ');
            i += 1;
            assert(r@ =~= Seq::new((2 * i) as nat, |k: int| ' '));
        }
        push_str(&mut r, "\u{2192} ");
        r
    }
}

/// Whether `x` is one of `v`.
fn contains_text(v: &Vec<Vec<char>>, x: &[char]) -> (b: bool)
    ensures
        b == cviews(v@).contains(x@),
{
    let mut i: usize = 0;
    while i < v.len()
        invariant
            i <= v@.len(),
            forall|k: int| 0 <= k < i ==> cviews(v@)[k] != x@,
        decreases v@.len() - i,
    {
        if chars_eq(v[i].as_slice(), x) {
            assert(cviews(v@)[i as int] == x@);
            return true;
        }
        i += 1;
    }
    false
}

/// The symbols that the file `u` of `graph` imports from `t`, sorted.
fn user_syms_exec(graph: &FileMap, u: &[char], t: &[char]) -> (r: Vec<Vec<char>>)
    ensures
        cviews(r@) == sorted_set(user_syms(graph@, u@, t@)),
{
    let name = string_of(u);
    match graph.get(name.as_str()) {
        Some(fi) => syms_to_exec(fi, t),
        None => {
            let r: Vec<Vec<char>> = Vec::new();
            proof {
                assert(cviews(r@).to_set() =~= Set::<Seq<char>>::empty());
                lemma_is_sorted_set(cviews(r@));
            }
            r
        },
    }
}

/// Appends the users of `target` from depth `cur` on, each followed by its
/// own users while `cur < max_depth`; `visited` holds the files on the
/// path from the queried file and comes back unchanged.
fn collect_used_by(
    graph: &FileMap,
    target: &[char],
    max_depth: u32,
    cur: u32,
    visited: &mut Vec<Vec<char>>,
    out: &mut Vec<char>,
)
    ensures
        final(visited)@ == old(visited)@,
        final(out)@ == old(out)@ + used_by_block(
            graph@,
            target@,
            max_depth as int,
            cur as int,
            cviews(old(visited)@).to_set(),
        ),
    decreases max_depth - cur,
{
    if cur > max_depth {
        assert(out@ =~= out@ + Seq::<char>::empty());
        return;
    }
    let users = users_sorted(graph, target);
    let ghost us = cviews(users@);
    let ghost g = graph@;
    let ghost v0 = visited@;
    let ghost vs = cviews(v0).to_set();
    let ghost out0 = out@;
    let ghost mx = max_depth as int;
    let ghost cu = cur as int;
    let indent = indent_exec(cur);
    let mut i: usize = 0;
    assert(out@ + used_by_lines(g, us, 0, target@, mx, cu, vs) =~= out0 + used_by_lines(
        g,
        us,
        0,
        target@,
        mx,
        cu,
        vs,
    ));
    while i < users.len()
        invariant
            g == graph@,
            us == cviews(users@),
            us == sorted_set(users_of(g, target@)),
            visited@ == v0,
            vs == cviews(v0).to_set(),
            mx == max_depth as int,
            cu == cur as int,
            cur <= max_depth,
            indent@ == indent_of(cu),
            i <= users@.len(),
            out@ + used_by_lines(g, us, i as int, target@, mx, cu, vs) == out0 + used_by_lines(
                g,
                us,
                0,
                target@,
                mx,
                cu,
                vs,
            ),
        decreases users@.len() - i,
    {
        let u = &users[i];
        let ghost uv = us[i as int];
        assert(u@ == uv);
        let ghost o1 = out@;
        let ghost rest = used_by_lines(g, us, i + 1, target@, mx, cu, vs);
        if contains_text(visited, u.as_slice()) {
            push_all(out, indent.as_slice());
            push_all(out, u.as_slice());
            push_str(out, " (cycle)\n");
            assert(used_by_lines(g, us, i as int, target@, mx, cu, vs) == indent_of(cu) + uv
                + " (cycle)\n"@ + rest);
            assert(out@ + rest =~= o1 + used_by_lines(g, us, i as int, target@, mx, cu, vs));
        } else {
            let syms = user_syms_exec(graph, u.as_slice(), target);
            push_entry(out, indent.as_slice(), u.as_slice(), &syms);
            let ghost line = entry_line(indent_of(cu), uv, sorted_set(user_syms(g, uv, target@)));
            assert(out@ == o1 + line);
            if cur < max_depth {
                let uc = copy_range(u.as_slice(), 0, u.len());
                assert(uc@ =~= uv);
                visited.push(uc);
                proof {
                    assert(cviews(visited@).to_set() =~= vs.insert(uv)) by {
                        assert(cviews(visited@) =~= cviews(v0).push(uv));
                        assert forall|x: Seq<char>| cviews(visited@).to_set().contains(x) implies vs.insert(
                            uv,
                        ).contains(x) by {
                            let k = choose|k: int| 0 <= k < cviews(visited@).len() && #[trigger] cviews(visited@)[k] == x;
                            if k < v0.len() {
                                assert(cviews(v0)[k] == x);
                            }
                        }
                        assert forall|x: Seq<char>| vs.insert(uv).contains(x) implies cviews(
                            visited@,
                        ).to_set().contains(x) by {
                            if x == uv {
                                assert(cviews(visited@)[v0.len() as int] == x);
                            } else {
                                let k = choose|k: int| 0 <= k < cviews(v0).len() && #[trigger] cviews(v0)[k] == x;
                                assert(cviews(visited@)[k] == x);
                            }
                        }
                    }
                }
                let ghost o2 = out@;
                collect_used_by(graph, u.as_slice(), max_depth, cur + 1, visited, out);
                let ghost nested = used_by_lines(
                    g,
                    sorted_set(users_of(g, uv)),
                    0,
                    uv,
                    mx,
                    cu + 1,
                    vs.insert(uv),
                );
                assert(out@ == o2 + nested);
                visited.pop();
                assert(visited@ =~= v0);
                assert(used_by_lines(g, us, i as int, target@, mx, cu, vs) == line + nested + rest);
                assert(out@ + rest =~= o1 + used_by_lines(g, us, i as int, target@, mx, cu, vs));
            } else {
                assert(used_by_lines(g, us, i as int, target@, mx, cu, vs) == line + rest);
                assert(out@ + rest =~= o1 + used_by_lines(g, us, i as int, target@, mx, cu, vs));
            }
        }
        i += 1;
    }
    assert(out@ =~= out@ + used_by_lines(g, us, i as int, target@, mx, cu, vs));
}

/// The directory part of `p` (see `dir_part`).
fn dir_part_exec(p: &[char]) -> (r: Vec<char>)
    ensures
        r@ == dir_part(p@),
{
    let mut n: usize = p.len();
    while n > 0 && p[n - 1] != '/'
        invariant
            n <= p@.len(),
            last_slash(p@, p@.len() as int) == last_slash(p@, n as int),
        decreases n,
    {
        n -= 1;
    }
    if n == 0 {
        Vec::new()
    } else {
        copy_range(p, 0, n - 1)
    }
}

/// Whether `g` is a single-package Go library around `file`, and the other
/// Go files of `g`, sorted.
fn go_siblings_sorted(g: &FileMap, file: &[char]) -> (r: (bool, Vec<Vec<char>>))
    ensures
        r.0 == single_go_package(g@, file@),
        cviews(r.1@) == sorted_set(go_siblings(g@, file@)),
{
    let ghost gv = g@;
    let go = chars_of(".go");
    let is_go_file = has_suffix(file, go.as_slice());
    let fdir = dir_part_exec(file);
    let mut single = is_go_file;
    let mut r: Vec<Vec<char>> = Vec::new();
    let mut k: usize = 0;
    while k < g.len()
        invariant
            gv == g@,
            go@ == ".go"@,
            fdir@ == dir_part(file@),
            k <= gv.len(),
            strictly_sorted(cviews(r@)),
            single == (is_go(file@) && forall|i: int|
                0 <= i < k && is_go(#[trigger] gv[i].0) ==> dir_part(gv[i].0) == dir_part(file@)),
            forall|p: Seq<char>|
                cviews(r@).to_set().contains(p) <==> exists|i: int|
                    0 <= i < k && #[trigger] gv[i].0 == p && is_go(p) && p != file@,
        decreases gv.len() - k,
    {
        let name = chars_of(g.name_at(k).as_str());
        let ghost nv = gv[k as int].0;
        if has_suffix(name.as_slice(), go.as_slice()) {
            let d = dir_part_exec(name.as_slice());
            if !chars_eq(d.as_slice(), fdir.as_slice()) {
                single = false;
            }
            if !chars_eq(name.as_slice(), file) {
                insert_sorted(&mut r, name.as_slice());
            }
        }
        proof {
            assert forall|p: Seq<char>|
                cviews(r@).to_set().contains(p) <==> exists|i: int|
                    0 <= i < k + 1 && #[trigger] gv[i].0 == p && is_go(p) && p != file@ by {
                if cviews(r@).to_set().contains(p) && p != nv {
                    let i = choose|i: int| 0 <= i < k && #[trigger] gv[i].0 == p && is_go(p) && p != file@;
                    assert(0 <= i < k + 1);
                }
                if p == nv && is_go(p) && p != file@ {
                    assert(gv[k as int].0 == p);
                }
            }
        }
        k += 1;
    }
    proof {
        assert(cviews(r@).to_set() =~= go_siblings(gv, file@));
        lemma_is_sorted_set(cviews(r@));
    }
    (single, r)
}

/// The dependencies of `file` in `graph`: the internal files it imports
/// (each once, sorted, with the symbols it names), the files that import
/// it down to `depth` levels, and the external packages it imports.
pub fn query_deps(graph: &DepsGraph, file: &str, depth: u32) -> (r: String)
    ensures
        r@ == query_text(graph.graph@, file@, depth as nat),
{
    let ghost g = graph.graph@;
    let mut out = chars_of("depends_on:\n");
    let ghost o0 = out@;
    let fc = chars_of(file);
    let two = chars_of("  ");
    match graph.graph.get(file) {
        Some(fi) => {
            let ps = paths_sorted(fi, false);
            let ghost pv = cviews(ps@);
            let mut i: usize = 0;
            assert(out@ =~= o0 + depends_lines(*fi, pv.take(0)));
            while i < ps.len()
                invariant
                    pv == cviews(ps@),
                    two@ == "  "@,
                    i <= ps@.len(),
                    out@ == o0 + depends_lines(*fi, pv.take(i as int)),
                decreases ps@.len() - i,
            {
                let syms = syms_to_exec(fi, ps[i].as_slice());
                push_entry(&mut out, two.as_slice(), ps[i].as_slice(), &syms);
                assert(pv.take(i + 1).drop_last() =~= pv.take(i as int));
                i += 1;
                assert(out@ =~= o0 + depends_lines(*fi, pv.take(i as int)));
            }
            assert(pv.take(i as int) =~= pv);
        },
        None => {
            assert(out@ =~= o0 + Seq::<char>::empty());
        },
    }
    let ghost o1 = out@;
    if depth > 1 {
        push_str(&mut out, "used_by (depth=");
        let d = decimal_of(depth as usize);
        push_all(&mut out, d.as_slice());
        push_str(&mut out, "):\n");
    } else {
        push_str(&mut out, "used_by:\n");
    }
    assert(out@ =~= o1 + used_by_header(depth as nat));
    let first = copy_range(fc.as_slice(), 0, fc.len());
    let mut visited: Vec<Vec<char>> = Vec::new();
    visited.push(first);
    proof {
        assert(cviews(visited@).to_set() =~= set![file@]) by {
            assert(cviews(visited@)[0] == file@);
        }
    }
    let ghost o2 = out@;
    collect_used_by(&graph.graph, fc.as_slice(), depth, 1, &mut visited, &mut out);
    let ghost o3 = out@;
    push_str(&mut out, "external:\n");
    let ghost o4 = out@;
    match graph.graph.get(file) {
        Some(fi) => {
            let es = paths_sorted(fi, true);
            let ghost ev = cviews(es@);
            let mut i: usize = 0;
            assert(out@ =~= o4 + external_lines(ev.take(0)));
            while i < es.len()
                invariant
                    ev == cviews(es@),
                    i <= es@.len(),
                    out@ == o4 + external_lines(ev.take(i as int)),
                decreases es@.len() - i,
            {
                push_str(&mut out, "  ");
                push_all(&mut out, es[i].as_slice());
                push_str(&mut out, "\n");
                assert(ev.take(i + 1).drop_last() =~= ev.take(i as int));
                i += 1;
                assert(out@ =~= o4 + external_lines(ev.take(i as int)));
            }
            assert(ev.take(i as int) =~= ev);
        },
        None => {
            assert(out@ =~= o4 + Seq::<char>::empty());
        },
    }
    let ghost o5 = out@;
    let (single, sibs) = go_siblings_sorted(&graph.graph, fc.as_slice());
    let ghost sv = cviews(sibs@);
    if single && sibs.len() > 0 {
        push_str(&mut out, "co-package:\n");
        let ghost o6 = out@;
        let mut i: usize = 0;
        assert(out@ =~= o6 + external_lines(sv.take(0)));
        while i < sibs.len()
            invariant
                sv == cviews(sibs@),
                i <= sibs@.len(),
                out@ == o6 + external_lines(sv.take(i as int)),
            decreases sibs@.len() - i,
        {
            push_str(&mut out, "  ");
            push_all(&mut out, sibs[i].as_slice());
            push_str(&mut out, "\n");
            assert(sv.take(i + 1).drop_last() =~= sv.take(i as int));
            i += 1;
            assert(out@ =~= o6 + external_lines(sv.take(i as int)));
        }
        assert(sv.take(i as int) =~= sv);
        assert(out@ =~= o5 + co_package_lines(g, file@));
    } else {
        assert(out@ =~= o5 + co_package_lines(g, file@));
    }
    assert(out@ =~= query_text(g, file@, depth as nat));
    string_of(out.as_slice())
}

} // verus!
