//! Building the import graph of a repository: resolving each file's raw
//! imports, and reusing what a cached graph already holds.
use vstd::prelude::*;

use crate::cache::{blake3_hex, compute_fingerprint, content_hash, fingerprint_input, CACHE_VERSION};
use crate::deps::extract::{extract_imports, imports_of_source, raws_view};
use crate::deps::filemap::{first_key, lookup_file, put_file, FileMap};
use crate::deps::pathmap::PathMap;
use crate::deps::resolve::{resolve_import, spec_resolve_import};
use crate::deps::{DepsGraph, FileImports, ImportInfo};
use crate::index::Language;
use crate::text::{chars_eq, chars_of, string_of, views};

verus! {

/// A resolved import as texts: its path, symbols and whether it is
/// external.
pub open spec fn info_view(i: ImportInfo) -> (Seq<char>, Seq<Seq<char>>, bool) {
    (i.path@, views(i.symbols@), i.external)
}

/// Resolved imports as texts.
pub open spec fn infos_view(v: Seq<ImportInfo>) -> Seq<(Seq<char>, Seq<Seq<char>>, bool)> {
    v.map_values(|i: ImportInfo| info_view(i))
}

/// The imports of a file as texts: content hash, raw and resolved imports.
pub open spec fn fi_view(fi: FileImports) -> (
    Seq<char>,
    Seq<(Seq<char>, Seq<Seq<char>>)>,
    Seq<(Seq<char>, Seq<Seq<char>>, bool)>,
) {
    (fi.content_hash@, raws_view(fi.raw_imports@), infos_view(fi.imports@))
}

/// A graph as texts.
pub open spec fn graph_view(g: Seq<(Seq<char>, FileImports)>) -> Seq<
    (Seq<char>, (Seq<char>, Seq<(Seq<char>, Seq<Seq<char>>)>, Seq<(Seq<char>, Seq<Seq<char>>, bool)>)),
> {
    g.map_values(|e: (Seq<char>, FileImports)| (e.0, fi_view(e.1)))
}

/// A raw import resolved: to the file it names (internal), or kept as
/// written (external). Rust resolves against the crate map, Go against the
/// module map.
pub open spec fn resolved_info(
    raw: (Seq<char>, Seq<Seq<char>>),
    lang: Language,
    cur: Seq<char>,
    files: Seq<Seq<char>>,
    cm: Seq<(Seq<char>, Seq<char>)>,
    gm: Seq<(Seq<char>, Seq<char>)>,
) -> (Seq<char>, Seq<Seq<char>>, bool) {
    let r = spec_resolve_import(
        raw.0,
        lang,
        cur,
        files,
        if lang == Language::Rust {
            Some(cm)
        } else {
            None
        },
        if lang == Language::Go {
            Some(gm)
        } else {
            None
        },
    );
    match r {
        Some(p) => (p, raw.1, false),
        None => (raw.0, raw.1, true),
    }
}

/// Raw imports resolved.
pub open spec fn resolve_all(
    raws: Seq<(Seq<char>, Seq<Seq<char>>)>,
    lang: Language,
    cur: Seq<char>,
    files: Seq<Seq<char>>,
    cm: Seq<(Seq<char>, Seq<char>)>,
    gm: Seq<(Seq<char>, Seq<char>)>,
) -> Seq<(Seq<char>, Seq<Seq<char>>, bool)> {
    raws.map_values(|r: (Seq<char>, Seq<Seq<char>>)| resolved_info(r, lang, cur, files, cm, gm))
}

/// A copy of a list of strings.
fn copy_strings(v: &Vec<String>) -> (r: Vec<String>)
    ensures
        views(r@) == views(v@),
{
    let mut r: Vec<String> = Vec::new();
    let mut k: usize = 0;
    while k < v.len()
        invariant
            k <= v@.len(),
            views(r@) == views(v@).take(k as int),
        decreases v@.len() - k,
    {
        let c = chars_of(v[k].as_str());
        let ghost r0 = views(r@);
        r.push(string_of(c.as_slice()));
        assert(views(r@) =~= r0.push(v@[k as int]@));
        assert(views(v@).take(k + 1) =~= views(v@).take(k as int).push(v@[k as int]@));
        k += 1;
    }
    assert(views(v@).take(k as int) =~= views(v@));
    r
}

/// A copy of raw imports.
fn copy_raws(v: &Vec<(String, Vec<String>)>) -> (r: Vec<(String, Vec<String>)>)
    ensures
        raws_view(r@) == raws_view(v@),
{
    let mut r: Vec<(String, Vec<String>)> = Vec::new();
    let mut k: usize = 0;
    while k < v.len()
        invariant
            k <= v@.len(),
            raws_view(r@) == raws_view(v@).take(k as int),
        decreases v@.len() - k,
    {
        let p = chars_of(v[k].0.as_str());
        let s = copy_strings(&v[k].1);
        let ghost r0 = raws_view(r@);
        r.push((string_of(p.as_slice()), s));
        assert(raws_view(r@) =~= r0.push(raws_view(v@)[k as int]));
        assert(raws_view(v@).take(k + 1) =~= raws_view(v@).take(k as int).push(raws_view(v@)[k as int]));
        k += 1;
    }
    assert(raws_view(v@).take(k as int) =~= raws_view(v@));
    r
}

/// A copy of the imports of a file.
fn copy_imports(fi: &FileImports) -> (r: FileImports)
    ensures
        fi_view(r) == fi_view(*fi),
{
    let h = chars_of(fi.content_hash.as_str());
    let raw = copy_raws(&fi.raw_imports);
    let mut imports: Vec<ImportInfo> = Vec::new();
    let mut k: usize = 0;
    while k < fi.imports.len()
        invariant
            k <= fi.imports@.len(),
            infos_view(imports@) == infos_view(fi.imports@).take(k as int),
        decreases fi.imports@.len() - k,
    {
        let i = &fi.imports[k];
        let p = chars_of(i.path.as_str());
        let s = copy_strings(&i.symbols);
        let ghost r0 = infos_view(imports@);
        imports.push(ImportInfo { path: string_of(p.as_slice()), symbols: s, external: i.external });
        assert(infos_view(imports@) =~= r0.push(info_view(*i)));
        assert(infos_view(fi.imports@).take(k + 1) =~= infos_view(fi.imports@).take(k as int).push(info_view(*i)));
        k += 1;
    }
    assert(infos_view(fi.imports@).take(k as int) =~= infos_view(fi.imports@));
    FileImports { content_hash: string_of(h.as_slice()), raw_imports: raw, imports }
}

/// Resolves raw imports (see `resolved_info`): each to the file it names,
/// or kept as written and marked external.
pub fn resolve_raw_imports(
    raw_imports: &Vec<(String, Vec<String>)>,
    lang: Language,
    current_file: &str,
    all_files: &[String],
    crate_map: &PathMap,
    go_module_map: &PathMap,
) -> (r: Vec<ImportInfo>)
    ensures
        infos_view(r@) == resolve_all(
            raws_view(raw_imports@),
            lang,
            current_file@,
            views(all_files@),
            crate_map@,
            go_module_map@,
        ),
{
    let ghost target = resolve_all(
        raws_view(raw_imports@),
        lang,
        current_file@,
        views(all_files@),
        crate_map@,
        go_module_map@,
    );
    let mut r: Vec<ImportInfo> = Vec::new();
    let mut k: usize = 0;
    while k < raw_imports.len()
        invariant
            k <= raw_imports@.len(),
            target == resolve_all(
                raws_view(raw_imports@),
                lang,
                current_file@,
                views(all_files@),
                crate_map@,
                go_module_map@,
            ),
            infos_view(r@) == target.take(k as int),
        decreases raw_imports@.len() - k,
    {
        let (path, symbols) = (&raw_imports[k].0, &raw_imports[k].1);
        let cm = if lang == Language::Rust {
            Some(crate_map)
        } else {
            None
        };
        let gm = if lang == Language::Go {
            Some(go_module_map)
        } else {
            None
        };
        let resolved = resolve_import(path.as_str(), lang, current_file, all_files, cm, gm);
        let syms = copy_strings(symbols);
        let info = match resolved {
            Some(p) => ImportInfo { path: p, symbols: syms, external: false },
            None => {
                let c = chars_of(path.as_str());
                ImportInfo { path: string_of(c.as_slice()), symbols: syms, external: true }
            },
        };
        let ghost r0 = infos_view(r@);
        assert(info_view(info) == target[k as int]);
        r.push(info);
        assert(infos_view(r@) =~= r0.push(target[k as int]));
        assert(target.take(k + 1) =~= target.take(k as int).push(target[k as int]));
        k += 1;
    }
    assert(target.take(k as int) =~= target);
    r
}

/// A file to put in the graph: its path relative to the root (with `/`),
/// its language and its bytes.
pub struct SourceFile {
    pub rel: String,
    pub lang: Language,
    pub source: Vec<u8>,
}

/// What is done with a file: reuse its cached entry, re-resolve its
/// cached raw imports, or extract its imports afresh.
#[derive(Debug, Clone, Copy, PartialEq, Eq, Structural)]
pub enum Plan {
    Keep,
    Reresolve,
    Extract,
}

/// The plan for a file with content hash `hash`: its cached entry is
/// reused when its hash matches and the fingerprint is unchanged,
/// re-resolved when only the fingerprint changed, and otherwise the file
/// is extracted.
pub open spec fn plan_of(
    cache: Option<Seq<(Seq<char>, FileImports)>>,
    rel: Seq<char>,
    hash: Seq<char>,
    changed: bool,
) -> Plan {
    match cache {
        Some(g) => match lookup_file(g, rel) {
            Some(c) => if c.content_hash@ == hash {
                if changed {
                    Plan::Reresolve
                } else {
                    Plan::Keep
                }
            } else {
                Plan::Extract
            },
            None => Plan::Extract,
        },
        None => Plan::Extract,
    }
}

/// The cached graph, if any, as a sequence of entries.
pub open spec fn cache_view(cache: Option<&DepsGraph>) -> Option<Seq<(Seq<char>, FileImports)>> {
    match cache {
        Some(c) => Some(c.graph@),
        None => None,
    }
}

/// The fingerprint changed: there is no cache, or it was made for
/// another.
pub open spec fn fingerprint_changed(cache: Option<&DepsGraph>, fp: Seq<char>) -> bool {
    match cache {
        Some(c) => c.fingerprint@ != fp,
        None => true,
    }
}

/// The entry of one file, as texts: the cached one kept, the cached raw
/// imports re-resolved, or the extracted raw imports `ex` resolved.
pub open spec fn entry_view(
    f: SourceFile,
    cache: Option<Seq<(Seq<char>, FileImports)>>,
    changed: bool,
    ex: Seq<(Seq<char>, Seq<Seq<char>>)>,
    files: Seq<Seq<char>>,
    cm: Seq<(Seq<char>, Seq<char>)>,
    gm: Seq<(Seq<char>, Seq<char>)>,
) -> (Seq<char>, Seq<(Seq<char>, Seq<Seq<char>>)>, Seq<(Seq<char>, Seq<Seq<char>>, bool)>) {
    let h = blake3_hex(f.source@);
    match plan_of(cache, f.rel@, h, changed) {
        Plan::Keep => fi_view(lookup_file(cache->0, f.rel@)->0),
        Plan::Reresolve => {
            let raws = raws_view(lookup_file(cache->0, f.rel@)->0.raw_imports@);
            (h, raws, resolve_all(raws, f.lang, f.rel@, files, cm, gm))
        },
        Plan::Extract => (h, ex, resolve_all(ex, f.lang, f.rel@, files, cm, gm)),
    }
}

/// The graph of the first `n` files, as texts: each file's entry put in
/// turn (a later file of the same path replaces an earlier one in place).
pub open spec fn graph_of(
    fs: Seq<SourceFile>,
    n: int,
    cache: Option<Seq<(Seq<char>, FileImports)>>,
    changed: bool,
    exs: Seq<Seq<(Seq<char>, Seq<Seq<char>>)>>,
    files: Seq<Seq<char>>,
    cm: Seq<(Seq<char>, Seq<char>)>,
    gm: Seq<(Seq<char>, Seq<char>)>,
) -> Seq<
    (Seq<char>, (Seq<char>, Seq<(Seq<char>, Seq<Seq<char>>)>, Seq<(Seq<char>, Seq<Seq<char>>, bool)>)),
>
    decreases n,
{
    if n <= 0 {
        Seq::empty()
    } else {
        put_file(
            graph_of(fs, n - 1, cache, changed, exs, files, cm, gm),
            fs[n - 1].rel@,
            entry_view(fs[n - 1], cache, changed, exs[n - 1], files, cm, gm),
        )
    }
}

pub proof fn lemma_first_key_view(g: Seq<(Seq<char>, FileImports)>, k: Seq<char>, j: int)
    requires
        0 <= j <= g.len(),
    ensures
        first_key(graph_view(g), k, j) == first_key(g, k, j),
    decreases g.len() - j,
{
    if j < g.len() {
        lemma_first_key_view(g, k, j + 1);
    }
}

pub proof fn lemma_first_key_range(g: Seq<(Seq<char>, FileImports)>, k: Seq<char>, j: int)
    requires
        0 <= j,
    ensures
        first_key(g, k, j) matches Some(i) ==> j <= i < g.len(),
    decreases g.len() - j,
{
    if j < g.len() {
        lemma_first_key_range(g, k, j + 1);
    }
}

pub proof fn lemma_put_view(g: Seq<(Seq<char>, FileImports)>, k: Seq<char>, v: FileImports)
    ensures
        graph_view(put_file(g, k, v)) == put_file(graph_view(g), k, fi_view(v)),
{
    lemma_first_key_view(g, k, 0);
    match first_key(g, k, 0) {
        Some(i) => {
            assert(0 <= i < g.len()) by {
                lemma_first_key_range(g, k, 0);
            }
            assert(graph_view(g.update(i, (k, v))) =~= graph_view(g).update(i, (k, fi_view(v))));
        },
        None => {
            assert(graph_view(g.push((k, v))) =~= graph_view(g).push((k, fi_view(v))));
        },
    }
}

/// The plan for a file (see `plan_of`).
fn plan_exec(cache: Option<&DepsGraph>, rel: &str, hash: &str, changed: bool) -> (p: Plan)
    ensures
        p == plan_of(cache_view(cache), rel@, hash@, changed),
{
    match cache {
        Some(c) => match c.graph.get(rel) {
            Some(e) => {
                let a = chars_of(e.content_hash.as_str());
                let b = chars_of(hash);
                if chars_eq(a.as_slice(), b.as_slice()) {
                    if changed {
                        Plan::Reresolve
                    } else {
                        Plan::Keep
                    }
                } else {
                    Plan::Extract
                }
            },
            None => Plan::Extract,
        },
        None => Plan::Extract,
    }
}

/// The import graph of `files`, given for each file the raw imports that
/// extracting it gave (used where the plan is to extract): each file's
/// entry is reused, re-resolved or resolved afresh (see `entry_view`), and
/// the graph carries the current cache version and fingerprint.
pub fn assemble_deps_graph(
    files: &[SourceFile],
    all_files: &[String],
    crate_map: &PathMap,
    go_module_map: &PathMap,
    cache: Option<&DepsGraph>,
    extracted: &Vec<Vec<(String, Vec<String>)>>,
) -> (r: DepsGraph)
    requires
        extracted@.len() == files@.len(),
    ensures
        r.version == CACHE_VERSION,
        r.fingerprint@ == blake3_hex(fingerprint_input(views(all_files@), crate_map@, go_module_map@)),
        graph_view(r.graph@) == graph_of(
            files@,
            files@.len() as int,
            cache_view(cache),
            fingerprint_changed(cache, r.fingerprint@),
            extracted@.map_values(|e: Vec<(String, Vec<String>)>| raws_view(e@)),
            views(all_files@),
            crate_map@,
            go_module_map@,
        ),
{
    let fingerprint = compute_fingerprint(all_files, crate_map, go_module_map);
    let changed = match cache {
        Some(c) => {
            let a = chars_of(c.fingerprint.as_str());
            let b = chars_of(fingerprint.as_str());
            !chars_eq(a.as_slice(), b.as_slice())
        },
        None => true,
    };
    let ghost exs = extracted@.map_values(|e: Vec<(String, Vec<String>)>| raws_view(e@));
    let mut graph = FileMap::new();
    let mut i: usize = 0;
    while i < files.len()
        invariant
            i <= files@.len(),
            extracted@.len() == files@.len(),
            exs == extracted@.map_values(|e: Vec<(String, Vec<String>)>| raws_view(e@)),
            changed == fingerprint_changed(cache, fingerprint@),
            graph_view(graph@) == graph_of(
                files@,
                i as int,
                cache_view(cache),
                changed,
                exs,
                views(all_files@),
                crate_map@,
                go_module_map@,
            ),
        decreases files@.len() - i,
    {
        let f = &files[i];
        let h = content_hash(f.source.as_slice());
        let plan = plan_exec(cache, f.rel.as_str(), h.as_str(), changed);
        let entry = match plan {
            Plan::Keep => {
                let c = cache.unwrap();
                let e = c.graph.get(f.rel.as_str()).unwrap();
                copy_imports(e)
            },
            Plan::Reresolve => {
                let c = cache.unwrap();
                let e = c.graph.get(f.rel.as_str()).unwrap();
                let raws = copy_raws(&e.raw_imports);
                let imports = resolve_raw_imports(
                    &raws,
                    f.lang,
                    f.rel.as_str(),
                    all_files,
                    crate_map,
                    go_module_map,
                );
                FileImports { content_hash: h, raw_imports: raws, imports }
            },
            Plan::Extract => {
                let raws = copy_raws(&extracted[i]);
                let imports = resolve_raw_imports(
                    &raws,
                    f.lang,
                    f.rel.as_str(),
                    all_files,
                    crate_map,
                    go_module_map,
                );
                FileImports { content_hash: h, raw_imports: raws, imports }
            },
        };
        assert(fi_view(entry) == entry_view(
            *f,
            cache_view(cache),
            changed,
            exs[i as int],
            views(all_files@),
            crate_map@,
            go_module_map@,
        ));
        let ghost g0 = graph@;
        let rel = chars_of(f.rel.as_str());
        graph.insert(string_of(rel.as_slice()), entry);
        proof {
            lemma_put_view(g0, f.rel@, entry);
        }
        i += 1;
    }
    DepsGraph { version: CACHE_VERSION, fingerprint, graph }
}

/// The raw imports each file gives when it is parsed afresh (see
/// `imports_of_source`).
pub open spec fn fresh_imports(fs: Seq<SourceFile>) -> Seq<Seq<(Seq<char>, Seq<Seq<char>>)>> {
    fs.map_values(|f: SourceFile| imports_of_source(f.source@, f.lang))
}

/// Only the raw imports of the files whose plan is to extract enter the
/// graph: two lists that agree on those give the same graph.
pub proof fn lemma_graph_of_extracted(
    fs: Seq<SourceFile>,
    n: int,
    cache: Option<Seq<(Seq<char>, FileImports)>>,
    changed: bool,
    a: Seq<Seq<(Seq<char>, Seq<Seq<char>>)>>,
    b: Seq<Seq<(Seq<char>, Seq<Seq<char>>)>>,
    files: Seq<Seq<char>>,
    cm: Seq<(Seq<char>, Seq<char>)>,
    gm: Seq<(Seq<char>, Seq<char>)>,
)
    requires
        0 <= n <= fs.len(),
        forall|k: int|
            0 <= k < n && plan_of(cache, fs[k].rel@, blake3_hex(fs[k].source@), changed) == Plan::Extract
                ==> #[trigger] a[k] == b[k],
    ensures
        graph_of(fs, n, cache, changed, a, files, cm, gm) == graph_of(fs, n, cache, changed, b, files, cm, gm),
    decreases n,
{
    if n > 0 {
        lemma_graph_of_extracted(fs, n - 1, cache, changed, a, b, files, cm, gm);
        if plan_of(cache, fs[n - 1].rel@, blake3_hex(fs[n - 1].source@), changed) == Plan::Extract {
            assert(a[n - 1] == b[n - 1]);
        }
        assert(entry_view(fs[n - 1], cache, changed, a[n - 1], files, cm, gm) == entry_view(
            fs[n - 1],
            cache,
            changed,
            b[n - 1],
            files,
            cm,
            gm,
        ));
    }
}

/// The import graph of `files` (see `assemble_deps_graph`): only the
/// files whose plan is to extract are parsed, the rest reuse the cache.
pub fn build_deps_graph(
    files: &[SourceFile],
    all_files: &[String],
    crate_map: &PathMap,
    go_module_map: &PathMap,
    cache: Option<&DepsGraph>,
) -> (r: DepsGraph)
    ensures
        r.version == CACHE_VERSION,
        r.fingerprint@ == blake3_hex(fingerprint_input(views(all_files@), crate_map@, go_module_map@)),
        graph_view(r.graph@) == graph_of(
            files@,
            files@.len() as int,
            cache_view(cache),
            fingerprint_changed(cache, r.fingerprint@),
            fresh_imports(files@),
            views(all_files@),
            crate_map@,
            go_module_map@,
        ),
{
    let fingerprint = compute_fingerprint(all_files, crate_map, go_module_map);
    let changed = match cache {
        Some(c) => {
            let a = chars_of(c.fingerprint.as_str());
            let b = chars_of(fingerprint.as_str());
            !chars_eq(a.as_slice(), b.as_slice())
        },
        None => true,
    };
    let mut extracted: Vec<Vec<(String, Vec<String>)>> = Vec::new();
    let mut i: usize = 0;
    while i < files.len()
        invariant
            i <= files@.len(),
            extracted@.len() == i,
            changed == fingerprint_changed(cache, fingerprint@),
            forall|k: int|
                0 <= k < i && plan_of(cache_view(cache), files@[k].rel@, blake3_hex(files@[k].source@), changed)
                    == Plan::Extract ==> #[trigger] raws_view(extracted@[k]@) == imports_of_source(
                    files@[k].source@,
                    files@[k].lang,
                ),
        decreases files@.len() - i,
    {
        let f = &files[i];
        let h = content_hash(f.source.as_slice());
        if plan_exec(cache, f.rel.as_str(), h.as_str(), changed) == Plan::Extract {
            extracted.push(extract_imports(f.source.as_slice(), f.lang));
        } else {
            extracted.push(Vec::new());
        }
        i += 1;
    }
    let r = assemble_deps_graph(files, all_files, crate_map, go_module_map, cache, &extracted);
    let ghost exs = extracted@.map_values(|e: Vec<(String, Vec<String>)>| raws_view(e@));
    let ghost fresh = fresh_imports(files@);
    assert forall|k: int|
        0 <= k < files@.len() && plan_of(cache_view(cache), files@[k].rel@, blake3_hex(files@[k].source@), changed)
            == Plan::Extract implies #[trigger] exs[k] == fresh[k] by {
        assert(exs[k] == raws_view(extracted@[k]@));
    }
    proof {
        lemma_graph_of_extracted(
            files@,
            files@.len() as int,
            cache_view(cache),
            changed,
            exs,
            fresh,
            views(all_files@),
            crate_map@,
            go_module_map@,
        );
    }
    assert(graph_view(r.graph@) == graph_of(
        files@,
        files@.len() as int,
        cache_view(cache),
        fingerprint_changed(cache, r.fingerprint@),
        exs,
        views(all_files@),
        crate_map@,
        go_module_map@,
    ));
    r
}

/// The directory of the dependency cache, under the repository root.
pub const DEPS_DIR: &'static str = ".cache/taoki";

/// The file of the dependency cache.
pub const DEPS_FILE: &'static str = "deps.json";

/// Where the dependency cache of the repository at `root` is kept.
pub fn deps_cache_path(root: &str) -> (r: String)
    ensures
        r@ == crate::paths::join_of(crate::paths::join_of(root@, DEPS_DIR@), DEPS_FILE@),
{
    let d = crate::paths::path_join(root, DEPS_DIR);
    crate::paths::path_join(d.as_str(), DEPS_FILE)
}

/// A cached graph, if it was written by this version of the cache format.
pub fn current_graph(g: DepsGraph) -> (r: Option<DepsGraph>)
    ensures
        g.version == CACHE_VERSION ==> r == Some(g),
        g.version != CACHE_VERSION ==> r is None,
{
    if g.version == CACHE_VERSION {
        Some(g)
    } else {
        None
    }
}

/// Setting an entry in place keeps where every file is first found.
pub proof fn lemma_first_key_update<V>(m: Seq<(Seq<char>, V)>, k: Seq<char>, i: int, x: (Seq<char>, V), j: int)
    requires
        0 <= i < m.len(),
        x.0 == m[i].0,
        0 <= j <= m.len(),
    ensures
        first_key(m.update(i, x), k, j) == first_key(m, k, j),
    decreases m.len() - j,
{
    if j < m.len() {
        lemma_first_key_update(m, k, i, x, j + 1);
    }
}

/// Adding an entry at the end keeps where earlier files are first found,
/// and finds the new one at the end when it was not there.
pub proof fn lemma_first_key_push<V>(m: Seq<(Seq<char>, V)>, k: Seq<char>, x: (Seq<char>, V), j: int)
    requires
        0 <= j <= m.len(),
    ensures
        first_key(m, k, j) is Some ==> first_key(m.push(x), k, j) == first_key(m, k, j),
        first_key(m, k, j) is None && x.0 == k ==> first_key(m.push(x), k, j) == Some(m.len() as int),
        first_key(m, k, j) is None && x.0 != k ==> first_key(m.push(x), k, j) is None,
    decreases m.len() - j,
{
    if j < m.len() {
        lemma_first_key_push(m, k, x, j + 1);
    } else {
        assert(m.push(x)[j] == x);
        assert(first_key(m.push(x), k, j + 1) is None);
    }
}

/// After `put_file` of `k`, `k` is found with the value put.
pub proof fn lemma_put_found<V>(m: Seq<(Seq<char>, V)>, k: Seq<char>, v: V)
    ensures
        first_key(put_file(m, k, v), k, 0) matches Some(p) && put_file(m, k, v)[p].1 == v,
{
    match first_key(m, k, 0) {
        Some(i) => {
            crate::deps::graph::lemma_first_key_range_any(m, k, 0);
            lemma_first_key_update(m, k, i, (k, v), 0);
        },
        None => {
            lemma_first_key_push(m, k, (k, v), 0);
        },
    }
}

/// Where a file is first found from position `j` on, it is found inside the
/// map with its own name.
pub proof fn lemma_first_key_range_any<V>(m: Seq<(Seq<char>, V)>, k: Seq<char>, j: int)
    ensures
        first_key(m, k, j) matches Some(p) ==> j <= p < m.len() && m[p].0 == k,
    decreases m.len() - j,
{
    if 0 <= j < m.len() && m[j].0 != k {
        lemma_first_key_range_any(m, k, j + 1);
    }
}

/// `put_file` of another file keeps where `k` is found and its value.
pub proof fn lemma_put_other<V>(m: Seq<(Seq<char>, V)>, k: Seq<char>, k2: Seq<char>, v: V, p: int)
    requires
        k2 != k,
        first_key(m, k, 0) == Some(p),
    ensures
        first_key(put_file(m, k2, v), k, 0) == Some(p),
        put_file(m, k2, v)[p] == m[p],
{
    lemma_first_key_range_any(m, k, 0);
    match first_key(m, k2, 0) {
        Some(i) => {
            lemma_first_key_range_any(m, k2, 0);
            lemma_first_key_update(m, k, i, (k2, v), 0);
        },
        None => {
            lemma_first_key_push(m, k, (k2, v), 0);
        },
    }
}

/// An unchanged file keeps its cached entry: when the fingerprint is
/// unchanged and a file's content hashes to what its cached entry
/// recorded, the graph holds that cached entry for the file (no other
/// file of the list having the same path).
pub proof fn law_unchanged_file_keeps_cached_entry(
    fs: Seq<SourceFile>,
    i: int,
    cached: Seq<(Seq<char>, FileImports)>,
    exs: Seq<Seq<(Seq<char>, Seq<Seq<char>>)>>,
    files: Seq<Seq<char>>,
    cm: Seq<(Seq<char>, Seq<char>)>,
    gm: Seq<(Seq<char>, Seq<char>)>,
)
    requires
        0 <= i < fs.len(),
        forall|j: int| 0 <= j < fs.len() && j != i ==> #[trigger] fs[j].rel@ != fs[i].rel@,
        lookup_file(cached, fs[i].rel@) matches Some(c) && c.content_hash@ == blake3_hex(
            fs[i].source@,
        ),
    ensures
        ({
            let g = graph_of(fs, fs.len() as int, Some(cached), false, exs, files, cm, gm);
            first_key(g, fs[i].rel@, 0) matches Some(p) && g[p].1 == fi_view(
                lookup_file(cached, fs[i].rel@)->0,
            )
        }),
{
    let k = fs[i].rel@;
    let v = fi_view(lookup_file(cached, k)->0);
    assert(entry_view(fs[i], Some(cached), false, exs[i], files, cm, gm) == v);
    lemma_put_found(graph_of(fs, i, Some(cached), false, exs, files, cm, gm), k, v);
    lemma_later_puts_keep(fs, i, i + 1, cached, exs, files, cm, gm, v);
}

/// Files put after file `i` (all of another path) keep what the graph
/// holds for file `i`'s path.
pub proof fn lemma_later_puts_keep(
    fs: Seq<SourceFile>,
    i: int,
    n: int,
    cached: Seq<(Seq<char>, FileImports)>,
    exs: Seq<Seq<(Seq<char>, Seq<Seq<char>>)>>,
    files: Seq<Seq<char>>,
    cm: Seq<(Seq<char>, Seq<char>)>,
    gm: Seq<(Seq<char>, Seq<char>)>,
    v: (Seq<char>, Seq<(Seq<char>, Seq<Seq<char>>)>, Seq<(Seq<char>, Seq<Seq<char>>, bool)>),
)
    requires
        0 <= i < n <= fs.len(),
        forall|j: int| 0 <= j < fs.len() && j != i ==> #[trigger] fs[j].rel@ != fs[i].rel@,
        ({
            let g = graph_of(fs, n, Some(cached), false, exs, files, cm, gm);
            first_key(g, fs[i].rel@, 0) matches Some(p) && g[p].1 == v
        }),
    ensures
        ({
            let g = graph_of(fs, fs.len() as int, Some(cached), false, exs, files, cm, gm);
            first_key(g, fs[i].rel@, 0) matches Some(p) && g[p].1 == v
        }),
    decreases fs.len() - n,
{
    if n < fs.len() {
        let k = fs[i].rel@;
        let g = graph_of(fs, n, Some(cached), false, exs, files, cm, gm);
        let p = first_key(g, k, 0)->0;
        assert(fs[n].rel@ != k);
        lemma_put_other(
            g,
            k,
            fs[n].rel@,
            entry_view(fs[n], Some(cached), false, exs[n], files, cm, gm),
            p,
        );
        lemma_later_puts_keep(fs, i, n + 1, cached, exs, files, cm, gm, v);
    }
}

/// What a fresh build gives the file `f`: the hash of its content, its raw
/// imports (see `imports_of_source`), and those resolved.
pub open spec fn fresh_entry(
    f: SourceFile,
    files: Seq<Seq<char>>,
    cm: Seq<(Seq<char>, Seq<char>)>,
    gm: Seq<(Seq<char>, Seq<char>)>,
) -> (Seq<char>, Seq<(Seq<char>, Seq<Seq<char>>)>, Seq<(Seq<char>, Seq<Seq<char>>, bool)>) {
    let raws = imports_of_source(f.source@, f.lang);
    (blake3_hex(f.source@), raws, resolve_all(raws, f.lang, f.rel@, files, cm, gm))
}

/// The entry `e` is what a fresh build gives some file of `fs` of its name.
pub open spec fn holds_fresh(
    e: (Seq<char>, (Seq<char>, Seq<(Seq<char>, Seq<Seq<char>>)>, Seq<(Seq<char>, Seq<Seq<char>>, bool)>)),
    fs: Seq<SourceFile>,
    files: Seq<Seq<char>>,
    cm: Seq<(Seq<char>, Seq<char>)>,
    gm: Seq<(Seq<char>, Seq<char>)>,
) -> bool {
    exists|j: int| 0 <= j < fs.len() && fs[j].rel@ == e.0 && e.1 == #[trigger] fresh_entry(fs[j], files, cm, gm)
}

/// Every entry of the graph `gv` (as texts) is what a fresh build gives
/// some file of `fs` of its name.
pub open spec fn built_from(
    gv: Seq<(Seq<char>, (Seq<char>, Seq<(Seq<char>, Seq<Seq<char>>)>, Seq<(Seq<char>, Seq<Seq<char>>, bool)>))>,
    fs: Seq<SourceFile>,
    files: Seq<Seq<char>>,
    cm: Seq<(Seq<char>, Seq<char>)>,
    gm: Seq<(Seq<char>, Seq<char>)>,
) -> bool {
    forall|p: int| 0 <= p < gv.len() ==> #[trigger] holds_fresh(gv[p], fs, files, cm, gm)
}

/// A graph built without a cache holds, for each name, what a fresh build
/// gives a file of that name.
pub proof fn lemma_fresh_graph_built_from(
    fs: Seq<SourceFile>,
    n: int,
    files: Seq<Seq<char>>,
    cm: Seq<(Seq<char>, Seq<char>)>,
    gm: Seq<(Seq<char>, Seq<char>)>,
)
    requires
        0 <= n <= fs.len(),
    ensures
        built_from(graph_of(fs, n, None, true, fresh_imports(fs), files, cm, gm), fs, files, cm, gm),
    decreases n,
{
    if n > 0 {
        lemma_fresh_graph_built_from(fs, n - 1, files, cm, gm);
        let g0 = graph_of(fs, n - 1, None, true, fresh_imports(fs), files, cm, gm);
        let f = fs[n - 1];
        let v = entry_view(f, None, true, fresh_imports(fs)[n - 1], files, cm, gm);
        assert(v == fresh_entry(f, files, cm, gm));
        let g = put_file(g0, f.rel@, v);
        assert(g == graph_of(fs, n, None, true, fresh_imports(fs), files, cm, gm));
        lemma_first_key_range_any(g0, f.rel@, 0);
        assert forall|p: int| 0 <= p < g.len() implies #[trigger] holds_fresh(g[p], fs, files, cm, gm) by {
            match first_key(g0, f.rel@, 0) {
                Some(i) => {
                    if p == i {
                        assert(g[p] == (f.rel@, v));
                        assert(fs[n - 1].rel@ == g[p].0 && g[p].1 == fresh_entry(fs[n - 1], files, cm, gm));
                    } else {
                        assert(g[p] == g0[p]);
                        assert(holds_fresh(g0[p], fs, files, cm, gm));
                    }
                },
                None => {
                    if p == g0.len() {
                        assert(g[p] == (f.rel@, v));
                        assert(fs[n - 1].rel@ == g[p].0 && g[p].1 == fresh_entry(fs[n - 1], files, cm, gm));
                    } else {
                        assert(g[p] == g0[p]);
                        assert(holds_fresh(g0[p], fs, files, cm, gm));
                    }
                },
            }
        }
    }
}

/// A file found in `m` under `k` is held at some position of `m` under `k`.
pub proof fn lemma_lookup_found(m: Seq<(Seq<char>, FileImports)>, k: Seq<char>)
    ensures
        lookup_file(m, k) matches Some(v) ==> exists|p: int| 0 <= p < m.len() && m[p].0 == k && #[trigger] m[p].1 == v,
    decreases m.len(),
{
    if m.len() > 0 {
        if m[0].0 == k {
            assert(m[0].1 == lookup_file(m, k)->0);
        } else {
            lemma_lookup_found(m.drop_first(), k);
            if let Some(v) = lookup_file(m, k) {
                let p = choose|p: int| 0 <= p < m.drop_first().len() && m.drop_first()[p].0 == k
                    && #[trigger] m.drop_first()[p].1 == v;
                assert(m[p + 1].1 == v);
            }
        }
    }
}

/// The first `n` files of a build from a cache built from earlier files
/// give the same graph as a fresh build (see `law_cached_graph_is_fresh`).
proof fn lemma_cached_graph_is_fresh(
    fs: Seq<SourceFile>,
    n: int,
    c: Seq<(Seq<char>, FileImports)>,
    changed: bool,
    fs0: Seq<SourceFile>,
    files0: Seq<Seq<char>>,
    cm0: Seq<(Seq<char>, Seq<char>)>,
    gm0: Seq<(Seq<char>, Seq<char>)>,
    files: Seq<Seq<char>>,
    cm: Seq<(Seq<char>, Seq<char>)>,
    gm: Seq<(Seq<char>, Seq<char>)>,
)
    requires
        0 <= n <= fs.len(),
        built_from(graph_view(c), fs0, files0, cm0, gm0),
        forall|i: int, j: int|
            0 <= i < fs.len() && 0 <= j < fs0.len() && #[trigger] fs[i].rel@ == #[trigger] fs0[j].rel@
                && blake3_hex(fs[i].source@) == blake3_hex(fs0[j].source@) ==> fs[i].source@ == fs0[j].source@
                && fs[i].lang == fs0[j].lang,
        !changed ==> files0 == files && cm0 == cm && gm0 == gm,
    ensures
        graph_of(fs, n, Some(c), changed, fresh_imports(fs), files, cm, gm) == graph_of(
            fs,
            n,
            None,
            true,
            fresh_imports(fs),
            files,
            cm,
            gm,
        ),
    decreases n,
{
    if n > 0 {
        lemma_cached_graph_is_fresh(fs, n - 1, c, changed, fs0, files0, cm0, gm0, files, cm, gm);
        let f = fs[n - 1];
        let h = blake3_hex(f.source@);
        let ex = fresh_imports(fs)[n - 1];
        assert(ex == imports_of_source(f.source@, f.lang));
        let fresh = fresh_entry(f, files, cm, gm);
        assert(entry_view(f, None, true, ex, files, cm, gm) == fresh);
        match lookup_file(c, f.rel@) {
            Some(e) => {
                if e.content_hash@ == h {
                    lemma_lookup_found(c, f.rel@);
                    let p = choose|p: int| 0 <= p < c.len() && c[p].0 == f.rel@ && #[trigger] c[p].1 == e;
                    assert(graph_view(c)[p] == (c[p].0, fi_view(c[p].1)));
                    assert(holds_fresh(graph_view(c)[p], fs0, files0, cm0, gm0));
                    let j = choose|j: int| 0 <= j < fs0.len() && fs0[j].rel@ == graph_view(c)[p].0
                        && graph_view(c)[p].1 == #[trigger] fresh_entry(fs0[j], files0, cm0, gm0);
                    assert(fs[n - 1].rel@ == fs0[j].rel@);
                    assert(fi_view(e) == fresh_entry(fs0[j], files0, cm0, gm0));
                    assert(fs0[j].source@ == f.source@ && fs0[j].lang == f.lang);
                    assert(entry_view(f, Some(c), changed, ex, files, cm, gm) == fresh);
                } else {
                    assert(entry_view(f, Some(c), changed, ex, files, cm, gm) == fresh);
                }
            },
            None => {
                assert(entry_view(f, Some(c), changed, ex, files, cm, gm) == fresh);
            },
        }
    }
}

/// A build that reuses a cache gives the same graph as a fresh build:
/// when every entry of the cached graph `c` is what a fresh build gave a
/// file of its name among the earlier files `fs0` (as any graph built
/// without a cache is, see `lemma_fresh_graph_built_from`), when no
/// current file hashes like the earlier file of its name unless it has the
/// same content and language (no hash collision), and when an unchanged
/// fingerprint means an unchanged file list, crate map and module map, the
/// graph built from `fs` with the cache equals the one built without it.
pub proof fn law_cached_graph_is_fresh(
    fs: Seq<SourceFile>,
    c: Seq<(Seq<char>, FileImports)>,
    changed: bool,
    fs0: Seq<SourceFile>,
    files0: Seq<Seq<char>>,
    cm0: Seq<(Seq<char>, Seq<char>)>,
    gm0: Seq<(Seq<char>, Seq<char>)>,
    files: Seq<Seq<char>>,
    cm: Seq<(Seq<char>, Seq<char>)>,
    gm: Seq<(Seq<char>, Seq<char>)>,
)
    requires
        built_from(graph_view(c), fs0, files0, cm0, gm0),
        forall|i: int, j: int|
            0 <= i < fs.len() && 0 <= j < fs0.len() && #[trigger] fs[i].rel@ == #[trigger] fs0[j].rel@
                && blake3_hex(fs[i].source@) == blake3_hex(fs0[j].source@) ==> fs[i].source@ == fs0[j].source@
                && fs[i].lang == fs0[j].lang,
        !changed ==> files0 == files && cm0 == cm && gm0 == gm,
    ensures
        graph_of(fs, fs.len() as int, Some(c), changed, fresh_imports(fs), files, cm, gm) == graph_of(
            fs,
            fs.len() as int,
            None,
            true,
            fresh_imports(fs),
            files,
            cm,
            gm,
        ),
{
    lemma_cached_graph_is_fresh(fs, fs.len() as int, c, changed, fs0, files0, cm0, gm0, files, cm, gm);
}

} // verus!
