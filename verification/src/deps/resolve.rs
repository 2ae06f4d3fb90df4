//! Resolution of import paths to files of the repository.
use vstd::prelude::*;

use crate::deps::pathmap::{lookup, PathMap};
use crate::index::Language;
use crate::paths::{path_join, join_of, normalize_path, normalized, or_empty, parent, parent_of, with_extension, with_extension_of};
use crate::text::{
    chars_eq, chars_of, contains, copy_range, find_at, ends_with, find_from, has_prefix, has_substring, has_suffix, join,
    join_exec, member, occurs_at, occurs_at_exec, opt_view, push_all, push_str, replace_char,
    replace_char_exec, rfind, split_exec, split_str, starts_with, string_of, strip_prefix,
    strip_prefix_exec, strip_suffix, strip_suffix_exec, views,
};

verus! {

/// Backslashes turned into forward slashes.
pub open spec fn slashes(s: Seq<char>) -> Seq<char> {
    replace_char(s, '\\', '/')
}

/// The first candidate that is one of `files`.
pub open spec fn first_in(cands: Seq<Seq<char>>, files: Seq<Seq<char>>) -> Option<Seq<char>>
    decreases cands.len(),
{
    if cands.len() == 0 {
        None
    } else if files.contains(cands[0]) {
        Some(cands[0])
    } else {
        first_in(cands.drop_first(), files)
    }
}

/// The first `take` parts joined with `/`.
pub open spec fn joined_prefix(parts: Seq<Seq<char>>, take: int) -> Seq<char> {
    join(parts.take(take), seq!['/'])
}

/// The files that a Rust module path `ps` (parts joined with `/`) may live in,
/// for a single crate at the repository root.
pub open spec fn rust_candidates(ps: Seq<char>) -> Seq<Seq<char>> {
    seq!["src/"@ + ps + ".rs"@, "src/"@ + ps + "/mod.rs"@, ps + ".rs"@, ps + "/mod.rs"@]
}

/// The files that a Rust module path `ps` may live in, inside the crate
/// directory `base`.
pub open spec fn crate_candidates(base: Seq<char>, ps: Seq<char>) -> Seq<Seq<char>> {
    seq![
        slashes(join_of(join_of(base, "src"@), ps + ".rs"@)),
        slashes(join_of(join_of(join_of(base, "src"@), ps), "mod.rs"@)),
        slashes(join_of(base, ps + ".rs"@)),
        slashes(join_of(join_of(base, ps), "mod.rs"@)),
    ]
}

/// The first file found for the longest leading run of `parts`, trying
/// `take` parts first, then fewer (the last parts may name items, not modules).
pub open spec fn search_rust(parts: Seq<Seq<char>>, take: int, files: Seq<Seq<char>>) -> Option<
    Seq<char>,
>
    decreases take,
{
    if take <= 0 {
        None
    } else {
        match first_in(rust_candidates(joined_prefix(parts, take)), files) {
            Some(c) => Some(c),
            None => search_rust(parts, take - 1, files),
        }
    }
}

/// As `search_rust`, inside the crate directory `base`.
pub open spec fn search_crate(
    base: Seq<char>,
    parts: Seq<Seq<char>>,
    take: int,
    files: Seq<Seq<char>>,
) -> Option<Seq<char>>
    decreases take,
{
    if take <= 0 {
        None
    } else {
        match first_in(crate_candidates(base, joined_prefix(parts, take)), files) {
            Some(c) => Some(c),
            None => search_crate(base, parts, take - 1, files),
        }
    }
}

/// `resolve_rust`: a `crate::` path of a single-crate repository.
pub open spec fn spec_resolve_rust(ip: Seq<char>, files: Seq<Seq<char>>) -> Option<Seq<char>> {
    match strip_prefix(ip, "crate::"@) {
        Some(rest) => {
            let parts = split_str(rest, "::"@);
            search_rust(parts, parts.len() as int, files)
        },
        None => None,
    }
}

/// `resolve_within_crate`: a `::` path inside the crate directory `base`.
pub open spec fn spec_within_crate(rest: Seq<char>, base: Seq<char>, files: Seq<Seq<char>>) -> Option<
    Seq<char>,
> {
    let parts = split_str(rest, "::"@);
    search_crate(base, parts, parts.len() as int, files)
}

/// The prefix that a file of the crate directory `dir` starts with.
pub open spec fn crate_prefix(dir: Seq<char>) -> Seq<char> {
    if dir.len() == 0 {
        Seq::empty()
    } else {
        dir + seq!['/']
    }
}

/// The file lies in the crate directory `dir`.
pub open spec fn in_crate(file: Seq<char>, dir: Seq<char>) -> bool {
    crate_prefix(dir).len() == 0 || starts_with(file, crate_prefix(dir))
}

/// The length of the crate prefix of entry `b` of `m`, 0 for none.
pub open spec fn best_len(m: Seq<(Seq<char>, Seq<char>)>, b: Option<int>) -> int {
    match b {
        Some(j) => crate_prefix(m[j].1).len() as int,
        None => 0,
    }
}

/// `find_crate_root` over the first `n` entries: the entry with the longest
/// matching prefix, a later entry winning a tie.
pub open spec fn best_crate(m: Seq<(Seq<char>, Seq<char>)>, file: Seq<char>, n: int) -> Option<int>
    decreases n,
{
    if n <= 0 {
        None
    } else {
        let b = best_crate(m, file, n - 1);
        if in_crate(file, m[n - 1].1) && crate_prefix(m[n - 1].1).len() >= best_len(m, b) {
            Some(n - 1)
        } else {
            b
        }
    }
}

/// `resolve_rust_workspace`: a path resolved with a map of workspace crates.
pub open spec fn spec_resolve_rust_workspace(
    ip: Seq<char>,
    current: Seq<char>,
    files: Seq<Seq<char>>,
    m: Seq<(Seq<char>, Seq<char>)>,
) -> Option<Seq<char>> {
    match strip_prefix(ip, "crate::"@) {
        Some(rest) => {
            let base = match best_crate(m, current, m.len() as int) {
                Some(j) => m[j].1,
                None => Seq::empty(),
            };
            spec_within_crate(rest, base, files)
        },
        None => {
            let first = split_str(ip, "::"@)[0];
            match lookup(m, first) {
                Some(dir) => match strip_prefix(ip.skip(first.len() as int), "::"@) {
                    Some(rest) => spec_within_crate(rest, dir, files),
                    None => None,
                },
                None => None,
            }
        },
    }
}

/// The number of leading `.` of `s`.
pub open spec fn leading_dots(s: Seq<char>) -> nat
    decreases s.len(),
{
    if s.len() > 0 && s[0] == '.' {
        1 + leading_dots(s.drop_first())
    } else {
        0
    }
}

/// `base` after `n` steps to the parent (the empty path when there is none).
pub open spec fn ascend(base: Seq<char>, n: nat) -> Seq<char>
    decreases n,
{
    if n == 0 {
        base
    } else {
        ascend(or_empty(parent_of(base)), (n - 1) as nat)
    }
}

/// The two files a Python module path `p` may be.
pub open spec fn py_candidates(p: Seq<char>) -> Seq<Seq<char>> {
    seq![p + ".py"@, p + "/__init__.py"@]
}

/// A relative Python import (`from .a import b`) from `current`.
pub open spec fn spec_python_relative(ip: Seq<char>, current: Seq<char>, files: Seq<Seq<char>>) -> Option<Seq<char>> {
    let dots = leading_dots(ip);
    let module = ip.skip(dots as int);
    let base = ascend(or_empty(parent_of(current)), (dots - 1) as nat);
    let rel = if module.len() == 0 {
        base
    } else {
        join_of(base, replace_char(module, '.', '/'))
    };
    first_in(py_candidates(rel).map_values(|c: Seq<char>| slashes(c)), files)
}

/// Scans `files` from `i` for the `__init__.py` of the top-level package,
/// trying the module under each source root found.
pub open spec fn py_scan(files: Seq<Seq<char>>, i: int, init: Seq<char>, path: Seq<char>) -> Option<
    Seq<char>,
>
    decreases files.len() - i,
{
    if i < 0 || i >= files.len() {
        None
    } else {
        let f = files[i];
        if f == init || ends_with(f, seq!['/'] + init) {
            let prefix = f.take(f.len() - init.len());
            match first_in(py_candidates(prefix + path), files) {
                Some(c) => Some(c),
                None => py_scan(files, i + 1, init, path),
            }
        } else {
            py_scan(files, i + 1, init, path)
        }
    }
}

/// An absolute Python import: under the source root marked by the top-level
/// package's `__init__.py`, else at the repository root.
pub open spec fn spec_python_absolute(ip: Seq<char>, files: Seq<Seq<char>>) -> Option<Seq<char>> {
    let path = replace_char(ip, '.', '/');
    let top = split_str(ip, "."@)[0];
    let init = top + "/__init__.py"@;
    match py_scan(files, 0, init, path) {
        Some(c) => Some(c),
        None => first_in(py_candidates(path), files),
    }
}

/// `resolve_python`.
pub open spec fn spec_resolve_python(ip: Seq<char>, current: Seq<char>, files: Seq<Seq<char>>) -> Option<
    Seq<char>,
> {
    if starts_with(ip, "."@) {
        spec_python_relative(ip, current, files)
    } else {
        spec_python_absolute(ip, files)
    }
}

/// The extensions a TypeScript or JavaScript import may omit, in the order tried.
pub open spec fn ts_extensions() -> Seq<Seq<char>> {
    seq![
        "ts"@,
        "tsx"@,
        "js"@,
        "jsx"@,
        "mjs"@,
        "cjs"@,
        "mts"@,
        "cts"@,
        "d.ts"@,
        "d.tsx"@,
        "d.mts"@,
        "d.cts"@,
    ]
}

/// No extension of `ts_extensions` holds a path separator.
proof fn lemma_ts_extensions_plain()
    ensures
        forall|i: int| 0 <= i < ts_extensions().len() ==> !(#[trigger] ts_extensions()[i]).contains('/')
            && !ts_extensions()[i].contains('\\'),
{
    reveal_strlit("ts");
    reveal_strlit("tsx");
    reveal_strlit("js");
    reveal_strlit("jsx");
    reveal_strlit("mjs");
    reveal_strlit("cjs");
    reveal_strlit("mts");
    reveal_strlit("cts");
    reveal_strlit("d.ts");
    reveal_strlit("d.tsx");
    reveal_strlit("d.mts");
    reveal_strlit("d.cts");
    assert forall|i: int| 0 <= i < ts_extensions().len() implies !(#[trigger] ts_extensions()[i]).contains('/')
        && !ts_extensions()[i].contains('\\') by {
        let e = ts_extensions()[i];
        assert(forall|k: int| 0 <= k < e.len() ==> e[k] != '/' && e[k] != '\\');
    }
}

/// The files a relative TypeScript import of the normalized path `n` may be:
/// `n` with each extension, then an index file of the directory `n`.
pub open spec fn ts_candidates(n: Seq<char>) -> Seq<Seq<char>> {
    ts_extensions().map_values(|e: Seq<char>| slashes(with_extension_of(n, e))) + ts_extensions().map_values(
        |e: Seq<char>| slashes(join_of(n, "index."@ + e)),
    )
}

/// `resolve_ts`: only relative imports resolve.
pub open spec fn spec_resolve_ts(ip: Seq<char>, current: Seq<char>, files: Seq<Seq<char>>) -> Option<
    Seq<char>,
> {
    if !starts_with(ip, "./"@) && !starts_with(ip, "../"@) {
        None
    } else {
        let n = normalized(join_of(or_empty(parent_of(current)), ip));
        first_in(ts_candidates(n), files)
    }
}

/// A relative TypeScript or JavaScript import (`./...` or `../...`) names a
/// file beside the importing one: when the import path joined onto the
/// importing file's directory and normalized (so `..` climbs to the
/// parent), with `.ts` added, is a file of the repository, the import
/// resolves to that file.
pub proof fn law_relative_ts_import_resolves(
    ip: Seq<char>,
    lang: Language,
    current: Seq<char>,
    files: Seq<Seq<char>>,
    crate_map: Option<Seq<(Seq<char>, Seq<char>)>>,
    go_map: Option<Seq<(Seq<char>, Seq<char>)>>,
)
    requires
        lang == Language::TypeScript || lang == Language::JavaScript,
        starts_with(ip, "./"@) || starts_with(ip, "../"@),
        files.contains(slashes(with_extension_of(normalized(join_of(or_empty(parent_of(current)), ip)), "ts"@))),
    ensures
        spec_resolve_import(ip, lang, current, files, crate_map, go_map) == Some(
            slashes(with_extension_of(normalized(join_of(or_empty(parent_of(current)), ip)), "ts"@)),
        ),
{
    let n = normalized(join_of(or_empty(parent_of(current)), ip));
    assert(ts_extensions()[0] == "ts"@);
    assert(ts_candidates(n)[0] == slashes(with_extension_of(n, "ts"@)));
}

/// A TypeScript or JavaScript import that is not relative (a package)
/// names no file of the repository.
pub proof fn law_package_ts_import_is_external(
    ip: Seq<char>,
    lang: Language,
    current: Seq<char>,
    files: Seq<Seq<char>>,
    crate_map: Option<Seq<(Seq<char>, Seq<char>)>>,
    go_map: Option<Seq<(Seq<char>, Seq<char>)>>,
)
    requires
        lang == Language::TypeScript || lang == Language::JavaScript,
        !starts_with(ip, "."@),
    ensures
        spec_resolve_import(ip, lang, current, files, crate_map, go_map) is None,
{
    reveal_strlit(".");
    reveal_strlit("./");
    reveal_strlit("../");
    if starts_with(ip, "./"@) {
        assert(ip.subrange(0, 2)[0] == '.');
        assert(ip.subrange(0, 1) =~= "."@);
    }
    if starts_with(ip, "../"@) {
        assert(ip.subrange(0, 3)[0] == '.');
        assert(ip.subrange(0, 1) =~= "."@);
    }
}

/// The last position where `p` occurs in `s` at or before `i` (`str::rfind`).
pub open spec fn rfind_at(s: Seq<char>, p: Seq<char>, i: int) -> Option<int>
    decreases i + 1,
{
    if i < 0 {
        None
    } else if occurs_at(s, p, i) {
        Some(i)
    } else {
        rfind_at(s, p, i - 1)
    }
}

/// A file directly inside the package directory that ends a wildcard import.
pub open spec fn java_in_package(f: Seq<char>, dir_suffix: Seq<char>) -> bool {
    ends_with(f, ".java"@) && match rfind_at(f, dir_suffix, f.len() as int) {
        Some(pos) => (pos == 0 || f[pos - 1] == '/') && !contains(
            f.skip(pos + dir_suffix.len()),
            seq!['/'],
        ),
        None => false,
    }
}

/// The first of `files` from `i` on inside the package directory.
pub open spec fn first_java_in_package(files: Seq<Seq<char>>, dir_suffix: Seq<char>, i: int) -> Option<
    Seq<char>,
>
    decreases files.len() - i,
{
    if i < 0 || i >= files.len() {
        None
    } else if java_in_package(files[i], dir_suffix) {
        Some(files[i])
    } else {
        first_java_in_package(files, dir_suffix, i + 1)
    }
}

/// The first of `files` from `i` on that is `suffix` or ends with `/suffix`.
pub open spec fn first_with_suffix(files: Seq<Seq<char>>, suffix: Seq<char>, i: int) -> Option<
    Seq<char>,
>
    decreases files.len() - i,
{
    if i < 0 || i >= files.len() {
        None
    } else if ends_with(files[i], seq!['/'] + suffix) || files[i] == suffix {
        Some(files[i])
    } else {
        first_with_suffix(files, suffix, i + 1)
    }
}

/// Java classes by path suffix, trying the longest run of segments first.
pub open spec fn search_java(segs: Seq<Seq<char>>, take: int, files: Seq<Seq<char>>) -> Option<
    Seq<char>,
>
    decreases take,
{
    if take <= 0 {
        None
    } else {
        match first_with_suffix(files, joined_prefix(segs, take) + ".java"@, 0) {
            Some(f) => Some(f),
            None => search_java(segs, take - 1, files),
        }
    }
}

/// `resolve_java`.
pub open spec fn spec_resolve_java(ip: Seq<char>, files: Seq<Seq<char>>) -> Option<Seq<char>> {
    match strip_suffix(ip, ".*"@) {
        Some(pkg) => first_java_in_package(files, replace_char(pkg, '.', '/') + seq!['/'], 0),
        None => {
            let segs = split_str(ip, "."@);
            search_java(segs, segs.len() as int, files)
        },
    }
}

/// A non-test Go file directly inside the directory with prefix `prefix`.
pub open spec fn go_package_file(f: Seq<char>, prefix: Seq<char>) -> bool {
    ends_with(f, ".go"@) && !ends_with(f, "_test.go"@) && starts_with(f, prefix) && !contains(
        f.skip(prefix.len() as int),
        seq!['/'],
    )
}

/// The first of `files` from `i` on that is a Go file of the package.
pub open spec fn first_go_file(files: Seq<Seq<char>>, prefix: Seq<char>, i: int) -> Option<Seq<char>>
    decreases files.len() - i,
{
    if i < 0 || i >= files.len() {
        None
    } else if go_package_file(files[i], prefix) {
        Some(files[i])
    } else {
        first_go_file(files, prefix, i + 1)
    }
}

/// The package directory of an import below a module: `rest` inside `base`.
pub open spec fn go_package_dir(base: Seq<char>, rest: Seq<char>) -> Seq<char> {
    if base.len() == 0 {
        rest
    } else if rest.len() == 0 {
        base
    } else {
        base + seq!['/'] + rest
    }
}

/// The part of `ip` below the module `name`, if `ip` is in that module.
pub open spec fn go_rest(ip: Seq<char>, name: Seq<char>) -> Option<Seq<char>> {
    if ip == name {
        Some(Seq::empty())
    } else {
        strip_prefix(ip, name + seq!['/'])
    }
}

/// The first file found through the modules of `m` from entry `i` on.
pub open spec fn go_scan(m: Seq<(Seq<char>, Seq<char>)>, ip: Seq<char>, files: Seq<Seq<char>>, i: int) -> Option<
    Seq<char>,
>
    decreases m.len() - i,
{
    if i < 0 || i >= m.len() {
        None
    } else {
        match go_rest(ip, m[i].0) {
            Some(rest) => {
                let dir = go_package_dir(slashes(m[i].1), rest);
                let prefix = if dir.len() == 0 {
                    Seq::empty()
                } else {
                    dir + seq!['/']
                };
                match first_go_file(files, prefix, 0) {
                    Some(f) => Some(f),
                    None => go_scan(m, ip, files, i + 1),
                }
            },
            None => go_scan(m, ip, files, i + 1),
        }
    }
}

/// `resolve_import`: the file of the repository that an import names, or
/// `None` for an external import.
pub open spec fn spec_resolve_import(
    ip: Seq<char>,
    lang: Language,
    current: Seq<char>,
    files: Seq<Seq<char>>,
    crate_map: Option<Seq<(Seq<char>, Seq<char>)>>,
    go_map: Option<Seq<(Seq<char>, Seq<char>)>>,
) -> Option<Seq<char>> {
    match lang {
        Language::Rust => match crate_map {
            Some(m) => if m.len() > 0 {
                spec_resolve_rust_workspace(ip, current, files, m)
            } else {
                spec_resolve_rust(ip, files)
            },
            None => spec_resolve_rust(ip, files),
        },
        Language::Python => spec_resolve_python(ip, current, files),
        Language::TypeScript | Language::JavaScript => spec_resolve_ts(ip, current, files),
        Language::Go => match go_map {
            Some(m) => if m.len() > 0 {
                go_scan(m, ip, files, 0)
            } else {
                None
            },
            None => None,
        },
        Language::Java => spec_resolve_java(ip, files),
    }
}

} // verus!

verus! {

/// The string `a` followed by `b` and `c`.
fn concat3(a: &str, b: &[char], c: &str) -> (r: String)
    ensures
        r@ == a@ + b@ + c@,
{
    let mut v = chars_of(a);
    push_all(&mut v, b);
    push_str(&mut v, c);
    string_of(v.as_slice())
}

/// The string `a` followed by `lit`.
fn append_lit(a: &[char], lit: &str) -> (r: String)
    ensures
        r@ == a@ + lit@,
{
    let mut v = copy_range(a, 0, a.len());
    assert(v@ =~= a@);
    push_str(&mut v, lit);
    string_of(v.as_slice())
}

/// `s` with backslashes turned into forward slashes.
fn slash_string(s: &str) -> (r: String)
    ensures
        r@ == slashes(s@),
{
    let v = chars_of(s);
    let w = replace_char_exec(v.as_slice(), '\\', '/');
    string_of(w.as_slice())
}

proof fn lemma_first_in_step(cands: Seq<Seq<char>>, files: Seq<Seq<char>>, i: int)
    requires
        0 <= i < cands.len(),
    ensures
        first_in(cands.skip(i), files) == (if files.contains(cands[i]) {
            Some(cands[i])
        } else {
            first_in(cands.skip(i + 1), files)
        }),
{
    assert(cands.skip(i).drop_first() =~= cands.skip(i + 1));
}

/// The first candidate that is one of `files`.
fn first_member(cands: &Vec<String>, files: &[String]) -> (r: Option<String>)
    ensures
        opt_view(r) == first_in(views(cands@), views(files@)),
{
    let ghost cs = views(cands@);
    let mut i: usize = 0;
    assert(cs.skip(0) =~= cs);
    while i < cands.len()
        invariant
            i <= cands.len(),
            cs == views(cands@),
            first_in(cs, views(files@)) == first_in(cs.skip(i as int), views(files@)),
        decreases cands.len() - i,
    {
        proof {
            lemma_first_in_step(cs, views(files@), i as int);
        }
        if member(files, &cands[i]) {
            return Some(cands[i].clone());
        }
        i += 1;
    }
    assert(cs.skip(i as int) =~= Seq::<Seq<char>>::empty());
    None
}

/// The parts of `s` split at `sep`, with their texts.
fn split_parts(s: &[char], sep: &str) -> (r: Vec<Vec<char>>)
    requires
        sep@.len() > 0,
    ensures
        r@.map_values(|v: Vec<char>| v@) == split_str(s@, sep@),
{
    let sepv = chars_of(sep);
    let r = split_exec(s, sepv.as_slice());
    assert(r@.map_values(|v: Vec<char>| v@) =~= split_str(s@, sep@));
    r
}

/// The first `take` parts joined with `/`.
fn joined(parts: &Vec<Vec<char>>, take: usize) -> (r: Vec<char>)
    requires
        take <= parts@.len(),
    ensures
        r@ == joined_prefix(parts@.map_values(|v: Vec<char>| v@), take as int),
{
    let slash = vec!['/'];
    assert(slash@ =~= seq!['/']);
    let r = join_exec(parts.as_slice(), take, slash.as_slice());
    assert(parts@.take(take as int).map_values(|v: Vec<char>| v@) =~= parts@.map_values(
        |v: Vec<char>| v@,
    ).take(take as int));
    r
}

/// `resolve_rust`: only `crate::` paths resolve, to `src/` of the repository.
fn resolve_rust(import_path: &str, all_files: &[String]) -> (r: Option<String>)
    ensures
        opt_view(r) == spec_resolve_rust(import_path@, views(all_files@)),
{
    let ip = chars_of(import_path);
    let pre = chars_of("crate::");
    let rest = match strip_prefix_exec(ip.as_slice(), pre.as_slice()) {
        Some(x) => x,
        None => return None,
    };
    proof {
        reveal_strlit("::");
    }
    let parts = split_parts(rest.as_slice(), "::");
    let ghost pv = parts@.map_values(|v: Vec<char>| v@);
    let ghost files = views(all_files@);
    assert(strip_prefix(import_path@, "crate::"@) == Some(rest@));
    assert(spec_resolve_rust(import_path@, files) == search_rust(pv, parts@.len() as int, files));
    let mut take = parts.len();
    while take > 0
        invariant
            take <= parts@.len(),
            pv == parts@.map_values(|v: Vec<char>| v@),
            files == views(all_files@),
            spec_resolve_rust(import_path@, files) == search_rust(pv, parts@.len() as int, files),
            search_rust(pv, parts@.len() as int, files) == search_rust(pv, take as int, files),
        decreases take,
    {
        let ps = joined(&parts, take);
        let mut cands: Vec<String> = Vec::new();
        cands.push(concat3("src/", ps.as_slice(), ".rs"));
        cands.push(concat3("src/", ps.as_slice(), "/mod.rs"));
        cands.push(append_lit(ps.as_slice(), ".rs"));
        cands.push(append_lit(ps.as_slice(), "/mod.rs"));
        proof {
            reveal_strlit("");
            assert(views(cands@) =~= rust_candidates(ps@));
        }
        let found = first_member(&cands, all_files);
        assert(first_in(rust_candidates(joined_prefix(pv, take as int)), files) == opt_view(found));
        if let Some(c) = found {
            return Some(c);
        }
        take -= 1;
    }
    None
}

/// `resolve_within_crate`: a `::` path inside the crate directory `base`.
fn resolve_within_crate(rest: &[char], base: &str, all_files: &[String]) -> (r: Option<String>)
    ensures
        opt_view(r) == spec_within_crate(rest@, base@, views(all_files@)),
{
    proof {
        reveal_strlit("::");
    }
    let parts = split_parts(rest, "::");
    let ghost pv = parts@.map_values(|v: Vec<char>| v@);
    let ghost files = views(all_files@);
    let src = path_join(base, "src");
    assert(spec_within_crate(rest@, base@, files) == search_crate(base@, pv, parts@.len() as int, files));
    let mut take = parts.len();
    while take > 0
        invariant
            take <= parts@.len(),
            pv == parts@.map_values(|v: Vec<char>| v@),
            files == views(all_files@),
            spec_within_crate(rest@, base@, files) == search_crate(base@, pv, parts@.len() as int, files),
            src@ == join_of(base@, "src"@),
            search_crate(base@, pv, parts@.len() as int, files) == search_crate(
                base@,
                pv,
                take as int,
                files,
            ),
        decreases take,
    {
        let ps = joined(&parts, take);
        let ps_s = string_of(ps.as_slice());
        let ps_rs = append_lit(ps.as_slice(), ".rs");
        let mut cands: Vec<String> = Vec::new();
        cands.push(slash_string(path_join(src.as_str(), ps_rs.as_str()).as_str()));
        cands.push(
            slash_string(path_join(path_join(src.as_str(), ps_s.as_str()).as_str(), "mod.rs").as_str()),
        );
        cands.push(slash_string(path_join(base, ps_rs.as_str()).as_str()));
        cands.push(slash_string(path_join(path_join(base, ps_s.as_str()).as_str(), "mod.rs").as_str()));
        proof {
            reveal_strlit("");
            assert(ps_rs@ =~= ps@ + ".rs"@);
            assert(views(cands@) =~= crate_candidates(base@, ps@));
        }
        let found = first_member(&cands, all_files);
        assert(first_in(crate_candidates(base@, joined_prefix(pv, take as int)), files) == opt_view(
            found,
        ));
        if let Some(c) = found {
            return Some(c);
        }
        take -= 1;
    }
    None
}

/// An optional index as an integer.
pub open spec fn int_opt(o: Option<usize>) -> Option<int> {
    match o {
        Some(i) => Some(i as int),
        None => None,
    }
}

/// `find_crate_root`: the workspace crate whose directory holds `file`
/// (name and directory); the longest directory wins, a later entry a tie.
pub fn find_crate_root(file: &str, crate_map: &PathMap) -> (r: Option<(String, String)>)
    ensures
        match best_crate(crate_map@, file@, crate_map@.len() as int) {
            Some(j) => r matches Some(p) && p.0@ == crate_map@[j].0 && p.1@ == crate_map@[j].1,
            None => r is None,
        },
{
    let fv = chars_of(file);
    let mut best: Option<usize> = None;
    let mut best_n: usize = 0;
    let mut i: usize = 0;
    while i < crate_map.len()
        invariant
            i <= crate_map@.len(),
            fv@ == file@,
            int_opt(best) == best_crate(crate_map@, file@, i as int),
            best matches Some(j) ==> j < i,
            best_n == best_len(crate_map@, int_opt(best)),
        decreases crate_map@.len() - i,
    {
        let dir = chars_of(crate_map.dir_at(i).as_str());
        let mut prefix = dir.clone();
        if dir.len() > 0 {
            prefix.push('/');
        }
        assert(prefix@ == crate_prefix(crate_map@[i as int].1));
        if prefix.len() == 0 || has_prefix(fv.as_slice(), prefix.as_slice()) {
            if prefix.len() >= best_n {
                best_n = prefix.len();
                best = Some(i);
            }
        }
        i += 1;
    }
    match best {
        Some(j) => Some((crate_map.name_at(j).clone(), crate_map.dir_at(j).clone())),
        None => None,
    }
}

/// `resolve_rust_workspace`: `crate::` paths inside the current file's crate,
/// other paths through the workspace crate their first segment names.
fn resolve_rust_workspace(
    import_path: &str,
    current_file: &str,
    all_files: &[String],
    crate_map: &PathMap,
) -> (r: Option<String>)
    ensures
        opt_view(r) == spec_resolve_rust_workspace(
            import_path@,
            current_file@,
            views(all_files@),
            crate_map@,
        ),
{
    let ip = chars_of(import_path);
    let pre = chars_of("crate::");
    match strip_prefix_exec(ip.as_slice(), pre.as_slice()) {
        Some(rest) => {
            let base = match find_crate_root(current_file, crate_map) {
                Some((_, dir)) => dir,
                None => String::new(),
            };
            resolve_within_crate(rest.as_slice(), base.as_str(), all_files)
        },
        None => {
            proof {
                reveal_strlit("::");
            }
            let parts = split_parts(ip.as_slice(), "::");
            assert(parts@.len() > 0) by {
                assert(parts@.map_values(|v: Vec<char>| v@).len() == parts@.len());
            }
            let first = string_of(parts[0].as_slice());
            assert(first@ == split_str(ip@, "::"@)[0]);
            match crate_map.get(first.as_str()) {
                Some(dir) => {
                    let after = copy_range(ip.as_slice(), parts[0].len(), ip.len()) ;
                    assert(parts[0]@.len() <= ip@.len()) by {
                        lemma_split_first_prefix(ip@, "::"@);
                    }
                    let sep = chars_of("::");
                    match strip_prefix_exec(after.as_slice(), sep.as_slice()) {
                        Some(rest) => resolve_within_crate(rest.as_slice(), dir.as_str(), all_files),
                        None => None,
                    }
                },
                None => None,
            }
        },
    }
}

/// The first part of a split is a prefix of the text.
pub proof fn lemma_split_first_prefix(s: Seq<char>, sep: Seq<char>)
    ensures
        split_str(s, sep).len() > 0,
        split_str(s, sep)[0].len() <= s.len(),
        s.take(split_str(s, sep)[0].len() as int) == split_str(s, sep)[0],
{
    match find_at(s, sep, 0) {
        Some(i) => {
            if sep.len() > 0 && 0 <= i && i + sep.len() <= s.len() {
                assert(split_str(s, sep)[0] == s.take(i));
            } else {
                assert(s.take(s.len() as int) =~= s);
            }
        },
        None => {
            assert(s.take(s.len() as int) =~= s);
        },
    }
}

} // verus!

verus! {

/// The number of leading `.` of `s`.
fn count_leading_dots(s: &[char]) -> (n: usize)
    ensures
        n == leading_dots(s@),
        n <= s@.len(),
{
    let mut i: usize = 0;
    assert(s@.skip(0) =~= s@);
    while i < s.len() && s[i] == '.'
        invariant
            i <= s.len(),
            leading_dots(s@) == i + leading_dots(s@.skip(i as int)),
        decreases s.len() - i,
    {
        assert(s@.skip(i as int).drop_first() =~= s@.skip(i + 1));
        i += 1;
    }
    i
}

/// A relative Python import, resolved from the directory of `current_file`.
fn resolve_python_relative(ip: &[char], current_file: &str, all_files: &[String]) -> (r: Option<String>)
    requires
        starts_with(ip@, "."@),
    ensures
        opt_view(r) == spec_python_relative(ip@, current_file@, views(all_files@)),
{
    proof {
        reveal_strlit(".");
    }
    let dots = count_leading_dots(ip);
    assert(dots >= 1) by {
        assert(ip@.subrange(0, 1)[0] == "."@[0]);
    }
    let module = copy_range(ip, dots, ip.len());
    let mut base = match parent(current_file) {
        Some(p) => p,
        None => String::new(),
    };
    let ghost start = base@;
    assert(start == or_empty(parent_of(current_file@)));
    let mut k: usize = 1;
    while k < dots
        invariant
            1 <= k <= dots,
            ascend(start, (dots - 1) as nat) == ascend(base@, (dots - k) as nat),
        decreases dots - k,
    {
        base = match parent(base.as_str()) {
            Some(p) => p,
            None => String::new(),
        };
        k += 1;
    }
    let rel = if module.len() == 0 {
        base
    } else {
        let m = replace_char_exec(module.as_slice(), '.', '/');
        let ms = string_of(m.as_slice());
        path_join(base.as_str(), ms.as_str())
    };
    let relv = chars_of(rel.as_str());
    let mut cands: Vec<String> = Vec::new();
    cands.push(slash_string(append_lit(relv.as_slice(), ".py").as_str()));
    cands.push(slash_string(append_lit(relv.as_slice(), "/__init__.py").as_str()));
    proof {
        assert(views(cands@) =~= py_candidates(rel@).map_values(|c: Seq<char>| slashes(c)));
    }
    first_member(&cands, all_files)
}

/// An absolute Python import.
fn resolve_python_absolute(ip: &[char], all_files: &[String]) -> (r: Option<String>)
    ensures
        opt_view(r) == spec_python_absolute(ip@, views(all_files@)),
{
    proof {
        reveal_strlit(".");
        reveal_strlit("");
    }
    let path = replace_char_exec(ip, '.', '/');
    let parts = split_parts(ip, ".");
    proof {
        lemma_split_first_prefix(ip@, "."@);
    }
    assert(parts@.len() > 0) by {
        assert(parts@.map_values(|v: Vec<char>| v@).len() == parts@.len());
    }
    let mut init = parts[0].clone();
    push_str(&mut init, "/__init__.py");
    let mut slash_init = vec!['/'];
    push_all(&mut slash_init, init.as_slice());
    let ghost files = views(all_files@);
    let ghost initv = init@;
    assert(initv == split_str(ip@, "."@)[0] + "/__init__.py"@);
    let mut i: usize = 0;
    while i < all_files.len()
        invariant
            i <= all_files@.len(),
            files == views(all_files@),
            init@ == initv,
            initv == split_str(ip@, "."@)[0] + "/__init__.py"@,
            slash_init@ == seq!['/'] + initv,
            path@ == replace_char(ip@, '.', '/'),
            py_scan(files, 0, initv, path@) == py_scan(files, i as int, initv, path@),
        decreases all_files@.len() - i,
    {
        let f = chars_of(all_files[i].as_str());
        assert(f@ == files[i as int]);
        if chars_eq(f.as_slice(), init.as_slice()) || has_suffix(f.as_slice(), slash_init.as_slice()) {
            let prefix = copy_range(f.as_slice(), 0, f.len() - init.len());
            let mut pp = prefix.clone();
            push_all(&mut pp, path.as_slice());
            let mut cands: Vec<String> = Vec::new();
            cands.push(append_lit(pp.as_slice(), ".py"));
            cands.push(append_lit(pp.as_slice(), "/__init__.py"));
            assert(pp@ == prefix@ + path@);
            assert(views(cands@) =~= py_candidates(prefix@ + path@));
            let found = first_member(&cands, all_files);
            assert(first_in(py_candidates(prefix@ + path@), files) == opt_view(found));
            assert(prefix@ == files[i as int].take(files[i as int].len() - initv.len()));
            if let Some(c) = found {
                assert(py_scan(files, i as int, initv, path@) == Some(c@));
                return Some(c);
            }
        }
        i += 1;
    }
    let mut cands: Vec<String> = Vec::new();
    cands.push(append_lit(path.as_slice(), ".py"));
    cands.push(append_lit(path.as_slice(), "/__init__.py"));
    assert(views(cands@) =~= py_candidates(path@));
    first_member(&cands, all_files)
}

/// `resolve_python`.
fn resolve_python(import_path: &str, current_file: &str, all_files: &[String]) -> (r: Option<String>)
    ensures
        opt_view(r) == spec_resolve_python(import_path@, current_file@, views(all_files@)),
{
    let ip = chars_of(import_path);
    let dot = chars_of(".");
    if has_prefix(ip.as_slice(), dot.as_slice()) {
        resolve_python_relative(ip.as_slice(), current_file, all_files)
    } else {
        resolve_python_absolute(ip.as_slice(), all_files)
    }
}

/// The extensions a TypeScript or JavaScript import may omit.
fn ts_extension_list() -> (r: Vec<String>)
    ensures
        views(r@) == ts_extensions(),
{
    let mut r: Vec<String> = Vec::new();
    r.push(String::from_str("ts"));
    r.push(String::from_str("tsx"));
    r.push(String::from_str("js"));
    r.push(String::from_str("jsx"));
    r.push(String::from_str("mjs"));
    r.push(String::from_str("cjs"));
    r.push(String::from_str("mts"));
    r.push(String::from_str("cts"));
    r.push(String::from_str("d.ts"));
    r.push(String::from_str("d.tsx"));
    r.push(String::from_str("d.mts"));
    r.push(String::from_str("d.cts"));
    assert(views(r@) =~= ts_extensions());
    r
}

/// `resolve_ts`: a relative import, with or without its extension, or a
/// directory with an index file.
fn resolve_ts(import_path: &str, current_file: &str, all_files: &[String]) -> (r: Option<String>)
    ensures
        opt_view(r) == spec_resolve_ts(import_path@, current_file@, views(all_files@)),
{
    let ip = chars_of(import_path);
    let a = chars_of("./");
    let b = chars_of("../");
    if !has_prefix(ip.as_slice(), a.as_slice()) && !has_prefix(ip.as_slice(), b.as_slice()) {
        return None;
    }
    let dir = match parent(current_file) {
        Some(p) => p,
        None => String::new(),
    };
    let joined_path = path_join(dir.as_str(), import_path);
    let n = normalize_path(joined_path.as_str());
    let exts = ts_extension_list();
    let mut cands: Vec<String> = Vec::new();
    let mut i: usize = 0;
    while i < exts.len()
        invariant
            i <= exts@.len(),
            views(exts@) == ts_extensions(),
            views(cands@) == ts_extensions().take(i as int).map_values(
                |e: Seq<char>| slashes(with_extension_of(n@, e)),
            ),
        decreases exts@.len() - i,
    {
        proof {
            lemma_ts_extensions_plain();
            assert(exts@[i as int]@ == ts_extensions()[i as int]);
        }
        let c = slash_string(with_extension(n.as_str(), exts[i].as_str()).as_str());
        assert(ts_extensions()[i as int] == exts@[i as int]@);
        let ghost before = views(cands@);
        let ghost cv = c@;
        cands.push(c);
        assert(views(cands@) =~= before.push(cv));
        assert(ts_extensions().take(i + 1).map_values(
            |e: Seq<char>| slashes(with_extension_of(n@, e)),
        ) =~= ts_extensions().take(i as int).map_values(
            |e: Seq<char>| slashes(with_extension_of(n@, e)),
        ).push(cv));
        i += 1;
    }
    let mut j: usize = 0;
    while j < exts.len()
        invariant
            j <= exts@.len(),
            views(exts@) == ts_extensions(),
            views(cands@) == ts_extensions().map_values(
                |e: Seq<char>| slashes(with_extension_of(n@, e)),
            ) + ts_extensions().take(j as int).map_values(
                |e: Seq<char>| slashes(join_of(n@, "index."@ + e)),
            ),
        decreases exts@.len() - j,
    {
        let mut iv = chars_of("index.");
        push_str(&mut iv, exts[j].as_str());
        let idx = string_of(iv.as_slice());
        let c = slash_string(path_join(n.as_str(), idx.as_str()).as_str());
        assert(ts_extensions()[j as int] == exts@[j as int]@);
        let ghost before = views(cands@);
        let ghost cv = c@;
        cands.push(c);
        assert(views(cands@) =~= before.push(cv));
        assert(ts_extensions().take(j + 1).map_values(
            |e: Seq<char>| slashes(join_of(n@, "index."@ + e)),
        ) =~= ts_extensions().take(j as int).map_values(
            |e: Seq<char>| slashes(join_of(n@, "index."@ + e)),
        ).push(cv));
        assert(views(cands@) =~= ts_extensions().map_values(
            |e: Seq<char>| slashes(with_extension_of(n@, e)),
        ) + ts_extensions().take(j + 1).map_values(
            |e: Seq<char>| slashes(join_of(n@, "index."@ + e)),
        ));
        j += 1;
    }
    assert(ts_extensions().take(12) =~= ts_extensions());
    assert(views(cands@) =~= ts_candidates(n@));
    first_member(&cands, all_files)
}

} // verus!

verus! {

proof fn lemma_rfind_none(s: Seq<char>, p: Seq<char>, i: int)
    requires
        forall|k: int| k <= i ==> !occurs_at(s, p, k),
    ensures
        rfind_at(s, p, i) is None,
    decreases i + 1,
{
    if i >= 0 {
        lemma_rfind_none(s, p, i - 1);
    }
}

proof fn lemma_rfind_some(s: Seq<char>, p: Seq<char>, i: int, k: int)
    requires
        0 <= k <= i,
        occurs_at(s, p, k),
        forall|j: int| k < j <= i ==> !occurs_at(s, p, j),
    ensures
        rfind_at(s, p, i) == Some(k),
    decreases i + 1,
{
    if i > k {
        lemma_rfind_some(s, p, i - 1, k);
    }
}

/// The last position of `p` in `s`, as `rfind_at` from the end.
fn rfind_spec(s: &[char], p: &[char]) -> (r: Option<usize>)
    ensures
        int_opt(r) == rfind_at(s@, p@, s@.len() as int),
        r matches Some(i) ==> occurs_at(s@, p@, i as int),
{
    let r = rfind(s, p);
    proof {
        match r {
            Some(i) => lemma_rfind_some(s@, p@, s@.len() as int, i as int),
            None => lemma_rfind_none(s@, p@, s@.len() as int),
        }
    }
    r
}

/// Whether `f` is a Java file directly inside the package directory.
fn java_in_package_exec(f: &[char], dir_suffix: &[char]) -> (b: bool)
    ensures
        b == java_in_package(f@, dir_suffix@),
{
    let java = chars_of(".java");
    if !has_suffix(f, java.as_slice()) {
        return false;
    }
    match rfind_spec(f, dir_suffix) {
        Some(pos) => {
            assert(occurs_at(f@, dir_suffix@, pos as int));
            assert(pos + dir_suffix@.len() <= f@.len());
            let dl = dir_suffix.len();
            let fl = f.len();
            assert(pos + dl <= fl);
            let tail = copy_range(f, pos + dl, fl);
            assert(tail@ =~= f@.skip(pos + dir_suffix@.len()));
            let slash = vec!['/'];
            assert(slash@ =~= seq!['/']);
            (pos == 0 || f[pos - 1] == '/') && !has_substring(tail.as_slice(), slash.as_slice())
        },
        None => false,
    }
}

/// `resolve_java`: a wildcard import gives some file of the package; a class
/// import is matched by path suffix, dropping trailing segments (members,
/// inner classes) until a file matches.
fn resolve_java(import_path: &str, all_files: &[String]) -> (r: Option<String>)
    ensures
        opt_view(r) == spec_resolve_java(import_path@, views(all_files@)),
{
    let ip = chars_of(import_path);
    let star = chars_of(".*");
    let ghost files = views(all_files@);
    match strip_suffix_exec(ip.as_slice(), star.as_slice()) {
        Some(pkg) => {
            let mut dir_suffix = replace_char_exec(pkg.as_slice(), '.', '/');
            dir_suffix.push('/');
            assert(dir_suffix@ =~= replace_char(pkg@, '.', '/') + seq!['/']);
            let mut i: usize = 0;
            while i < all_files.len()
                invariant
                    i <= all_files@.len(),
                    files == views(all_files@),
                    dir_suffix@ == replace_char(pkg@, '.', '/') + seq!['/'],
                    spec_resolve_java(import_path@, files) == first_java_in_package(files, dir_suffix@, 0),
                    first_java_in_package(files, dir_suffix@, 0) == first_java_in_package(
                        files,
                        dir_suffix@,
                        i as int,
                    ),
                decreases all_files@.len() - i,
            {
                let f = chars_of(all_files[i].as_str());
                assert(f@ == files[i as int]);
                if java_in_package_exec(f.as_slice(), dir_suffix.as_slice()) {
                    return Some(all_files[i].clone());
                }
                i += 1;
            }
            None
        },
        None => {
            proof {
                reveal_strlit(".");
            }
            let segs = split_parts(ip.as_slice(), ".");
            let ghost sv = segs@.map_values(|v: Vec<char>| v@);
            assert(spec_resolve_java(import_path@, files) == search_java(sv, segs@.len() as int, files));
            let mut take = segs.len();
            while take > 0
                invariant
                    take <= segs@.len(),
                    sv == segs@.map_values(|v: Vec<char>| v@),
                    files == views(all_files@),
                    spec_resolve_java(import_path@, files) == search_java(sv, segs@.len() as int, files),
                    search_java(sv, segs@.len() as int, files) == search_java(sv, take as int, files),
                decreases take,
            {
                let ps = joined(&segs, take);
                let mut suffix = ps.clone();
                push_str(&mut suffix, ".java");
                let mut with_sep = vec!['/'];
                push_all(&mut with_sep, suffix.as_slice());
                let mut i: usize = 0;
                assert(suffix@ == joined_prefix(sv, take as int) + ".java"@);
                while i < all_files.len()
                    invariant
                        i <= all_files@.len(),
                        0 < take <= segs@.len(),
                        files == views(all_files@),
                        with_sep@ == seq!['/'] + suffix@,
                        suffix@ == joined_prefix(sv, take as int) + ".java"@,
                        spec_resolve_java(import_path@, files) == search_java(sv, segs@.len() as int, files),
                        search_java(sv, segs@.len() as int, files) == search_java(sv, take as int, files),
                        first_with_suffix(files, suffix@, 0) == first_with_suffix(
                            files,
                            suffix@,
                            i as int,
                        ),
                    decreases all_files@.len() - i,
                {
                    let f = chars_of(all_files[i].as_str());
                    assert(f@ == files[i as int]);
                    if has_suffix(f.as_slice(), with_sep.as_slice()) || chars_eq(
                        f.as_slice(),
                        suffix.as_slice(),
                    ) {
                        return Some(all_files[i].clone());
                    }
                    i += 1;
                }
                take -= 1;
            }
            None
        },
    }
}

/// `resolve_go`: an import below one of the modules of the map resolves to
/// the first non-test Go file directly inside the package directory.
fn resolve_go(import_path: &str, all_files: &[String], module_map: &PathMap) -> (r: Option<String>)
    ensures
        opt_view(r) == go_scan(module_map@, import_path@, views(all_files@), 0),
{
    let ip = chars_of(import_path);
    let ghost files = views(all_files@);
    let ghost m = module_map@;
    let mut k: usize = 0;
    while k < module_map.len()
        invariant
            k <= m.len(),
            m == module_map@,
            ip@ == import_path@,
            files == views(all_files@),
            go_scan(m, ip@, files, 0) == go_scan(m, ip@, files, k as int),
        decreases m.len() - k,
    {
        let name = chars_of(module_map.name_at(k).as_str());
        let rest_opt: Option<Vec<char>> = if chars_eq(ip.as_slice(), name.as_slice()) {
            Some(Vec::new())
        } else {
            let mut pre = name.clone();
            pre.push('/');
            assert(pre@ =~= name@ + seq!['/']);
            strip_prefix_exec(ip.as_slice(), pre.as_slice())
        };
        proof {
            assert(rest_opt matches Some(x) ==> go_rest(ip@, m[k as int].0) == Some(x@));
            assert(rest_opt is None ==> go_rest(ip@, m[k as int].0) is None);
        }
        if let Some(rest) = rest_opt {
            let dirs = chars_of(module_map.dir_at(k).as_str());
            let base = replace_char_exec(dirs.as_slice(), '\\', '/');
            let mut pkg: Vec<char>;
            if base.len() == 0 {
                pkg = rest.clone();
            } else if rest.len() == 0 {
                pkg = base.clone();
            } else {
                pkg = base.clone();
                pkg.push('/');
                push_all(&mut pkg, rest.as_slice());
            }
            assert(pkg@ == go_package_dir(slashes(m[k as int].1), rest@));
            let mut prefix = pkg.clone();
            if pkg.len() > 0 {
                prefix.push('/');
            }
            let go = chars_of(".go");
            let test_go = chars_of("_test.go");
            let slash = vec!['/'];
            assert(slash@ =~= seq!['/']);
            let mut i: usize = 0;
            while i < all_files.len()
                invariant
                    i <= all_files@.len(),
                    k < m.len(),
                    m == module_map@,
                    ip@ == import_path@,
                    go_rest(ip@, m[k as int].0) == Some(rest@),
                    prefix@ == (if pkg@.len() == 0 { Seq::<char>::empty() } else { pkg@ + seq!['/'] }),
                    pkg@ == go_package_dir(slashes(m[k as int].1), rest@),
                    go_scan(m, ip@, files, 0) == go_scan(m, ip@, files, k as int),
                    files == views(all_files@),
                    go@ == ".go"@,
                    test_go@ == "_test.go"@,
                    slash@ == seq!['/'],
                    first_go_file(files, prefix@, 0) == first_go_file(files, prefix@, i as int),
                decreases all_files@.len() - i,
            {
                let f = chars_of(all_files[i].as_str());
                assert(f@ == files[i as int]);
                if has_suffix(f.as_slice(), go.as_slice()) && !has_suffix(f.as_slice(), test_go.as_slice())
                    && has_prefix(f.as_slice(), prefix.as_slice()) {
                    let tail = copy_range(f.as_slice(), prefix.len(), f.len());
                    assert(tail@ =~= f@.skip(prefix@.len() as int));
                    if !has_substring(tail.as_slice(), slash.as_slice()) {
                        return Some(all_files[i].clone());
                    }
                }
                i += 1;
            }
        }
        k += 1;
    }
    None
}

/// Resolves an import path to a file of the repository (`all_files` holds
/// paths relative to its root). `None` means the import is external.
pub fn resolve_import(
    import_path: &str,
    lang: Language,
    current_file: &str,
    all_files: &[String],
    crate_map: Option<&PathMap>,
    go_module_map: Option<&PathMap>,
) -> (r: Option<String>)
    ensures
        opt_view(r) == spec_resolve_import(
            import_path@,
            lang,
            current_file@,
            views(all_files@),
            match crate_map {
                Some(m) => Some(m@),
                None => None,
            },
            match go_module_map {
                Some(m) => Some(m@),
                None => None,
            },
        ),
{
    match lang {
        Language::Rust => match crate_map {
            Some(map) => if !map.is_empty() {
                resolve_rust_workspace(import_path, current_file, all_files, map)
            } else {
                resolve_rust(import_path, all_files)
            },
            None => resolve_rust(import_path, all_files),
        },
        Language::Python => resolve_python(import_path, current_file, all_files),
        Language::TypeScript | Language::JavaScript => resolve_ts(import_path, current_file, all_files),
        Language::Go => match go_module_map {
            Some(map) => if !map.is_empty() {
                resolve_go(import_path, all_files, map)
            } else {
                None
            },
            None => None,
        },
        Language::Java => resolve_java(import_path, all_files),
    }
}

} // verus!

verus! {

proof fn lemma_first_in_member(cands: Seq<Seq<char>>, files: Seq<Seq<char>>)
    ensures
        first_in(cands, files) matches Some(f) ==> files.contains(f),
    decreases cands.len(),
{
    if cands.len() > 0 && !files.contains(cands[0]) {
        lemma_first_in_member(cands.drop_first(), files);
    }
}

proof fn lemma_search_rust_member(parts: Seq<Seq<char>>, take: int, files: Seq<Seq<char>>)
    ensures
        search_rust(parts, take, files) matches Some(f) ==> files.contains(f),
    decreases take,
{
    if take > 0 {
        lemma_first_in_member(rust_candidates(joined_prefix(parts, take)), files);
        lemma_search_rust_member(parts, take - 1, files);
    }
}

proof fn lemma_search_crate_member(base: Seq<char>, parts: Seq<Seq<char>>, take: int, files: Seq<Seq<char>>)
    ensures
        search_crate(base, parts, take, files) matches Some(f) ==> files.contains(f),
    decreases take,
{
    if take > 0 {
        lemma_first_in_member(crate_candidates(base, joined_prefix(parts, take)), files);
        lemma_search_crate_member(base, parts, take - 1, files);
    }
}

proof fn lemma_py_scan_member(files: Seq<Seq<char>>, i: int, init: Seq<char>, path: Seq<char>)
    ensures
        py_scan(files, i, init, path) matches Some(f) ==> files.contains(f),
    decreases files.len() - i,
{
    if 0 <= i < files.len() {
        let f = files[i];
        lemma_first_in_member(py_candidates(f.take(f.len() - init.len()) + path), files);
        lemma_py_scan_member(files, i + 1, init, path);
    }
}

proof fn lemma_first_java_member(files: Seq<Seq<char>>, d: Seq<char>, i: int)
    ensures
        first_java_in_package(files, d, i) matches Some(f) ==> files.contains(f),
    decreases files.len() - i,
{
    if 0 <= i < files.len() {
        if java_in_package(files[i], d) {
            assert(files.contains(files[i]));
        } else {
            lemma_first_java_member(files, d, i + 1);
        }
    }
}

proof fn lemma_first_suffix_member(files: Seq<Seq<char>>, suffix: Seq<char>, i: int)
    ensures
        first_with_suffix(files, suffix, i) matches Some(f) ==> files.contains(f),
    decreases files.len() - i,
{
    if 0 <= i < files.len() {
        if ends_with(files[i], seq!['/'] + suffix) || files[i] == suffix {
            assert(files.contains(files[i]));
        } else {
            lemma_first_suffix_member(files, suffix, i + 1);
        }
    }
}

proof fn lemma_search_java_member(segs: Seq<Seq<char>>, take: int, files: Seq<Seq<char>>)
    ensures
        search_java(segs, take, files) matches Some(f) ==> files.contains(f),
    decreases take,
{
    if take > 0 {
        lemma_first_suffix_member(files, joined_prefix(segs, take) + ".java"@, 0);
        lemma_search_java_member(segs, take - 1, files);
    }
}

proof fn lemma_first_go_member(files: Seq<Seq<char>>, prefix: Seq<char>, i: int)
    ensures
        first_go_file(files, prefix, i) matches Some(f) ==> files.contains(f),
    decreases files.len() - i,
{
    if 0 <= i < files.len() {
        if go_package_file(files[i], prefix) {
            assert(files.contains(files[i]));
        } else {
            lemma_first_go_member(files, prefix, i + 1);
        }
    }
}

proof fn lemma_go_scan_member(m: Seq<(Seq<char>, Seq<char>)>, ip: Seq<char>, files: Seq<Seq<char>>, i: int)
    ensures
        go_scan(m, ip, files, i) matches Some(f) ==> files.contains(f),
    decreases m.len() - i,
{
    if 0 <= i < m.len() {
        match go_rest(ip, m[i].0) {
            Some(rest) => {
                let dir = go_package_dir(slashes(m[i].1), rest);
                let prefix = if dir.len() == 0 {
                    Seq::empty()
                } else {
                    dir + seq!['/']
                };
                lemma_first_go_member(files, prefix, 0);
            },
            None => {},
        }
        lemma_go_scan_member(m, ip, files, i + 1);
    }
}

/// An import resolves only to one of the files it was resolved against:
/// whatever `resolve_import` returns is an element of `all_files`.
pub proof fn law_resolved_import_is_a_file(
    ip: Seq<char>,
    lang: Language,
    current: Seq<char>,
    files: Seq<Seq<char>>,
    crate_map: Option<Seq<(Seq<char>, Seq<char>)>>,
    go_map: Option<Seq<(Seq<char>, Seq<char>)>>,
)
    ensures
        spec_resolve_import(ip, lang, current, files, crate_map, go_map) matches Some(f)
            ==> files.contains(f),
{
    match strip_prefix(ip, "crate::"@) {
        Some(rest) => {
            let parts = split_str(rest, "::"@);
            lemma_search_rust_member(parts, parts.len() as int, files);
        },
        None => {},
    }
    match lang {
        Language::Rust => {
            match crate_map {
                Some(m) => {
                    match strip_prefix(ip, "crate::"@) {
                        Some(rest) => {
                            let base = match best_crate(m, current, m.len() as int) {
                                Some(j) => m[j].1,
                                None => Seq::empty(),
                            };
                            let parts = split_str(rest, "::"@);
                            lemma_search_crate_member(base, parts, parts.len() as int, files);
                        },
                        None => {
                            let first = split_str(ip, "::"@)[0];
                            match lookup(m, first) {
                                Some(dir) => match strip_prefix(ip.skip(first.len() as int), "::"@) {
                                    Some(rest) => {
                                        let parts = split_str(rest, "::"@);
                                        lemma_search_crate_member(dir, parts, parts.len() as int, files);
                                    },
                                    None => {},
                                },
                                None => {},
                            }
                        },
                    }
                },
                None => {},
            }
        },
        Language::Python => {
            if starts_with(ip, "."@) {
                let dots = leading_dots(ip);
                let module = ip.skip(dots as int);
                let base = ascend(or_empty(parent_of(current)), (dots - 1) as nat);
                let rel = if module.len() == 0 {
                    base
                } else {
                    join_of(base, replace_char(module, '.', '/'))
                };
                lemma_first_in_member(py_candidates(rel).map_values(|c: Seq<char>| slashes(c)), files);
            } else {
                let path = replace_char(ip, '.', '/');
                let top = split_str(ip, "."@)[0];
                lemma_py_scan_member(files, 0, top + "/__init__.py"@, path);
                lemma_first_in_member(py_candidates(path), files);
            }
        },
        Language::TypeScript | Language::JavaScript => {
            let n = normalized(join_of(or_empty(parent_of(current)), ip));
            lemma_first_in_member(ts_candidates(n), files);
        },
        Language::Go => {
            match go_map {
                Some(m) => lemma_go_scan_member(m, ip, files, 0),
                None => {},
            }
        },
        Language::Java => {
            match strip_suffix(ip, ".*"@) {
                Some(pkg) => lemma_first_java_member(files, replace_char(pkg, '.', '/') + seq!['/'], 0),
                None => {
                    let segs = split_str(ip, "."@);
                    lemma_search_java_member(segs, segs.len() as int, files);
                },
            }
        },
    }
}

} // verus!
