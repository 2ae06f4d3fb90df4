//! The three tools of the server: xray (a file's skeleton), radar (the
//! repository map) and ripple (a file's dependencies), with the decisions
//! they make around the file system.
use vstd::prelude::*;

use crate::codemap::CodeMapError;
use crate::deps::query::{query_deps, query_text};
use crate::deps::DepsGraph;
use crate::index::api::IndexError;
use crate::index::outline::skeleton_of;
use crate::index::syntax::{parse_of, rows_fit, SyntaxNode};
use crate::index::{index_source, language_of_extension, Language, MAX_FILE_SIZE};
use crate::paths::{
    extension, extension_of, file_name, file_name_of, file_stem, file_stem_of, or_empty,
    or_empty_string, path_join, join_of, strip_path_prefix, strip_prefix_of,
};
use crate::text::{
    chars_of, contains, decimal, ends_with, has_prefix, has_substring, has_suffix, opt_view,
    push_all, push_str, replace_char, replace_char_exec, starts_with, str_is, string_of,
};

verus! {

/// The directory of the caches, under the repository root.
pub const XRAY_CACHE_DIR: &'static str = ".cache/taoki";

/// The file of the xray cache.
pub const XRAY_CACHE_FILE: &'static str = "xray.json";

/// Where the xray cache of the repository at `root` is kept.
pub fn xray_cache_path(root: &str) -> (r: String)
    ensures
        r@ == join_of(join_of(root@, XRAY_CACHE_DIR@), XRAY_CACHE_FILE@),
{
    let d = path_join(root, XRAY_CACHE_DIR);
    path_join(d.as_str(), XRAY_CACHE_FILE)
}

/// The directories that hold test data by convention.
pub open spec fn test_data_dirs() -> Seq<Seq<char>> {
    seq![
        "/testdata/"@,
        "/tests/data/"@,
        "/tests/fixtures/"@,
        "/test/fixtures/"@,
        "/test/data/"@,
        "/__fixtures__/"@,
        "/src/test/resources/"@,
    ]
}

/// The path, with `\` read as `/`, lies in a test data directory.
pub open spec fn test_data_path(p: Seq<char>) -> bool {
    let s = replace_char(p, '\\', '/');
    exists|j: int| 0 <= j < test_data_dirs().len() && contains(s, #[trigger] test_data_dirs()[j])
}

/// The file name, stem and extension of a path say it holds tests:
/// `*_test.go`, `test_*.py` or `*_test.py`, `*.test.*`, `*.spec.*`,
/// `*Test.java` or `*Tests.java`, or it lies in a test data directory.
pub open spec fn test_filename(p: Seq<char>) -> bool {
    let stem = or_empty(file_stem_of(p));
    let name = or_empty(file_name_of(p));
    let ext = or_empty(extension_of(p));
    ends_with(name, "_test.go"@) || ((ext == "py"@ || ext == "pyi"@) && (starts_with(
        stem,
        "test_"@,
    ) || ends_with(stem, "_test"@))) || ends_with(stem, ".test"@) || ends_with(stem, ".spec"@)
        || (ext == "java"@ && (ends_with(stem, "Test"@) || ends_with(stem, "Tests"@)))
        || test_data_path(p)
}

/// A file whose stem ends in `.test` or `.spec` (such as `util.test.ts`
/// or `api.spec.js`) holds tests, whatever its language.
pub proof fn law_dot_test_stems_are_tests(p: Seq<char>, stem: Seq<char>)
    requires
        file_stem_of(p) == Some(stem),
        ends_with(stem, ".test"@) || ends_with(stem, ".spec"@),
    ensures
        test_filename(p),
{
}

/// The last `.` of the first `k` characters of `n` is at `j` when no `.`
/// comes after it.
proof fn lemma_last_dot_at(n: Seq<char>, k: int, j: int)
    requires
        0 <= j < k <= n.len(),
        n[j] == '.',
        forall|i: int| j < i < k ==> n[i] != '.',
    ensures
        crate::paths::last_dot(n, k) == Some(j),
    decreases k,
{
    if k - 1 > j {
        lemma_last_dot_at(n, k - 1, j);
    }
}

/// A file named `<base>.test.<ext>` or `<base>.spec.<ext>` (an extension
/// without a dot) holds tests, whatever its language.
pub proof fn law_dot_test_names_are_tests(p: Seq<char>, base: Seq<char>, mark: Seq<char>, ext: Seq<char>)
    requires
        mark == ".test"@ || mark == ".spec"@,
        file_name_of(p) == Some(base + mark + "."@ + ext),
        ext.len() > 0,
        forall|i: int| 0 <= i < ext.len() ==> ext[i] != '.',
    ensures
        test_filename(p),
{
    reveal_strlit(".test");
    reveal_strlit(".spec");
    reveal_strlit(".");
    let name = base + mark + "."@ + ext;
    let j = (base.len() + mark.len()) as int;
    assert(name[j] == '.');
    assert forall|i: int| j < i < name.len() implies name[i] != '.' by {
        assert(name[i] == ext[i - j - 1]);
    }
    lemma_last_dot_at(name, name.len() as int, j);
    assert(j > 0);
    let stem = name.take(j);
    assert(stem =~= base + mark);
    assert(stem.subrange(stem.len() - 5, stem.len() as int) =~= mark);
    assert(file_stem_of(p) == Some(stem));
    law_dot_test_stems_are_tests(p, stem);
}

/// A Go file whose name ends in `_test.go` holds tests.
pub proof fn law_go_test_files_are_tests(p: Seq<char>, name: Seq<char>)
    requires
        file_name_of(p) == Some(name),
        ends_with(name, "_test.go"@),
    ensures
        test_filename(p),
{
}

/// Whether the file lies in a well-known test data directory (with `\`
/// read as `/`).
pub fn is_test_data_path(path: &str) -> (b: bool)
    ensures
        b == test_data_path(path@),
{
    let c = chars_of(path);
    let s = replace_char_exec(c.as_slice(), '\\', '/');
    let mut pats: Vec<Vec<char>> = Vec::new();
    pats.push(chars_of("/testdata/"));
    pats.push(chars_of("/tests/data/"));
    pats.push(chars_of("/tests/fixtures/"));
    pats.push(chars_of("/test/fixtures/"));
    pats.push(chars_of("/test/data/"));
    pats.push(chars_of("/__fixtures__/"));
    pats.push(chars_of("/src/test/resources/"));
    let ghost pv = test_data_dirs();
    assert(pats@.len() == pv.len());
    assert(forall|j: int| 0 <= j < pv.len() ==> #[trigger] pats@[j]@ == pv[j]);
    let mut j: usize = 0;
    while j < pats.len()
        invariant
            j <= pats@.len(),
            pats@.len() == pv.len(),
            pv == test_data_dirs(),
            s@ == replace_char(path@, '\\', '/'),
            forall|k: int| 0 <= k < pv.len() ==> #[trigger] pats@[k]@ == pv[k],
            forall|k: int| 0 <= k < j ==> !contains(s@, #[trigger] pv[k]),
        decreases pats@.len() - j,
    {
        if has_substring(s.as_slice(), pats[j].as_slice()) {
            assert(contains(s@, pv[j as int]));
            return true;
        }
        j += 1;
    }
    false
}

/// Whether the file holds tests by its name or lies in a test data
/// directory (see `test_filename`).
pub fn is_test_filename(path: &str) -> (b: bool)
    ensures
        b == test_filename(path@),
{
    let stem = or_empty_string(file_stem(path));
    let name = or_empty_string(file_name(path));
    let ext = or_empty_string(extension(path));
    let sc = chars_of(stem.as_str());
    let nc = chars_of(name.as_str());
    let py = str_is(ext.as_str(), "py") || str_is(ext.as_str(), "pyi");
    let java = str_is(ext.as_str(), "java");
    has_suffix(nc.as_slice(), chars_of("_test.go").as_slice()) || (py && (has_prefix(
        sc.as_slice(),
        chars_of("test_").as_slice(),
    ) || has_suffix(sc.as_slice(), chars_of("_test").as_slice()))) || has_suffix(
        sc.as_slice(),
        chars_of(".test").as_slice(),
    ) || has_suffix(sc.as_slice(), chars_of(".spec").as_slice()) || (java && (has_suffix(
        sc.as_slice(),
        chars_of("Test").as_slice(),
    ) || has_suffix(sc.as_slice(), chars_of("Tests").as_slice()))) || is_test_data_path(path)
}

/// What the xray tool answers before it reads a file: the error for a
/// missing path or an unsupported extension, else the language.
pub open spec fn xray_language_result(p: Seq<char>) -> Result<Language, Seq<char>> {
    if p.len() == 0 {
        Err("missing required parameter: path"@)
    } else {
        match language_of_extension(or_empty(extension_of(p))) {
            Some(l) => Ok(l),
            None => Err("unsupported file type: ."@ + or_empty(extension_of(p))),
        }
    }
}

/// The language of the file the xray tool is asked for, or the error it
/// answers with.
pub fn xray_language(path_str: &str) -> (r: Result<Language, String>)
    ensures
        match r {
            Ok(l) => xray_language_result(path_str@) == Ok::<Language, Seq<char>>(l),
            Err(e) => xray_language_result(path_str@) == Err::<Language, Seq<char>>(e@),
        },
{
    if chars_of(path_str).len() == 0 {
        return Err(String::from_str("missing required parameter: path"));
    }
    let ext = or_empty_string(extension(path_str));
    match Language::from_extension(ext.as_str()) {
        Some(l) => Ok(l),
        None => {
            let mut m = chars_of("unsupported file type: .");
            let e = chars_of(ext.as_str());
            push_all(&mut m, e.as_slice());
            Err(string_of(m.as_slice()))
        },
    }
}

/// The error for a file of `len` bytes, when it is too large to index.
pub open spec fn size_error(len: u64) -> Option<Seq<char>> {
    if len > MAX_FILE_SIZE {
        Some(
            "file too large ("@ + decimal(len as nat) + " bytes, max "@ + decimal(
                MAX_FILE_SIZE as nat,
            ) + ")"@,
        )
    } else {
        None
    }
}

/// The error the xray tool answers for a file of `len` bytes, if it is
/// larger than it indexes.
pub fn xray_size_error(len: u64) -> (r: Option<String>)
    ensures
        opt_view(r) == size_error(len),
{
    if len > MAX_FILE_SIZE {
        let mut m = chars_of("file too large (");
        let d = crate::text::decimal_u64(len);
        push_all(&mut m, d.as_slice());
        push_str(&mut m, " bytes, max ");
        let x = crate::text::decimal_u64(MAX_FILE_SIZE);
        push_all(&mut m, x.as_slice());
        push_str(&mut m, ")");
        Some(string_of(m.as_slice()))
    } else {
        None
    }
}

/// The skeleton of a test file, collapsed: "tests: [1-N]" with N its line
/// breaks plus one.
pub open spec fn collapsed_skeleton(source: Seq<u8>) -> Seq<char> {
    "tests: [1-"@ + decimal(crate::index::count_byte(source, 10u8) + 1) + "]\n"@
}

/// The skeleton of a file that holds tests by its name.
pub fn collapsed_test_skeleton(source: &[u8]) -> (r: String)
    requires
        source@.len() < usize::MAX,
    ensures
        r@ == collapsed_skeleton(source@),
{
    let mut n: usize = 0;
    let mut i: usize = 0;
    while i < source.len()
        invariant
            i <= source@.len(),
            source@.len() < usize::MAX,
            n <= i,
            n == crate::index::count_byte(source@.take(i as int), 10u8),
        decreases source@.len() - i,
    {
        assert(source@.take(i + 1).drop_last() =~= source@.take(i as int));
        if source[i] == 10u8 {
            n += 1;
        }
        i += 1;
    }
    assert(source@.take(i as int) =~= source@);
    let mut m = chars_of("tests: [1-");
    let d = crate::text::decimal_of(n + 1);
    push_all(&mut m, d.as_slice());
    push_str(&mut m, "]\n");
    string_of(m.as_slice())
}

/// What the radar tool answers: the error for a missing path, else the
/// map that was built or the error that building it met.
pub fn call_radar(path: &str, built: Result<String, CodeMapError>) -> (r: Result<String, String>)
    ensures
        path@.len() == 0 ==> (r matches Err(e) && e@ == "missing required parameter: path"@),
        path@.len() > 0 ==> match built {
            Ok(m) => (r matches Ok(t) && t@ == m@),
            Err(e) => (r matches Err(t) && t@ == e.message_text()),
        },
{
    if chars_of(path).len() == 0 {
        return Err(String::from_str("missing required parameter: path"));
    }
    match built {
        Ok(m) => Ok(m),
        Err(e) => Err(e.message()),
    }
}

/// The path of `file` relative to `root` (as `Path::strip_prefix`
/// gives it), or `file` itself when it is not under `root`.
pub open spec fn rel_path(file: Seq<char>, root: Seq<char>) -> Seq<char> {
    match strip_prefix_of(file, root) {
        Some(r) => r,
        None => file,
    }
}

/// What the ripple tool answers: the error for a missing parameter, the
/// error of walking the repository, or the dependencies of the file
/// (relative to the root) in the graph that was built.
pub fn call_ripple(file_str: &str, root_str: &str, depth: u32, graph: Result<&DepsGraph, String>) -> (r:
    Result<String, String>)
    ensures
        (file_str@.len() == 0 || root_str@.len() == 0) ==> (r matches Err(e) && e@
            == "missing required parameters: file, repo_root"@),
        (file_str@.len() > 0 && root_str@.len() > 0) ==> match graph {
            Ok(g) => (r matches Ok(t) && t@ == query_text(
                g.graph@,
                rel_path(file_str@, root_str@),
                depth as nat,
            )),
            Err(e) => (r matches Err(t) && t@ == "failed to walk files: "@ + e@),
        },
{
    if chars_of(file_str).len() == 0 || chars_of(root_str).len() == 0 {
        return Err(String::from_str("missing required parameters: file, repo_root"));
    }
    match graph {
        Err(e) => {
            let mut m = chars_of("failed to walk files: ");
            let c = chars_of(e.as_str());
            push_all(&mut m, c.as_slice());
            Err(string_of(m.as_slice()))
        },
        Ok(g) => {
            let rel = match strip_path_prefix(file_str, root_str) {
                Some(r) => r,
                None => String::from_str(file_str),
            };
            Ok(query_deps(g, rel.as_str(), depth))
        },
    }
}

/// The skeleton a cache entry (content hash, skeleton) holds for content
/// of hash `hash`: its skeleton when the hashes agree, else none.
pub fn fresh_skeleton(hash: &str, entry: Option<&(String, String)>) -> (r: Option<String>)
    ensures
        match entry {
            Some(e) => if e.0@ == hash@ {
                r matches Some(s) && s@ == e.1@
            } else {
                r is None
            },
            None => r is None,
        },
{
    match entry {
        Some(e) => {
            if crate::text::chars_eq(chars_of(e.0.as_str()).as_slice(), chars_of(hash).as_slice()) {
                Some(string_of(chars_of(e.1.as_str()).as_slice()))
            } else {
                None
            }
        },
        None => None,
    }
}

/// What the xray tool answers for a file it read and found in no cache: a
/// file that holds tests by its name collapses to its line span; any other
/// is indexed (see `index_source`), its error given as a message.
pub fn xray_skeleton(path_str: &str, lang: Language, source: &[u8]) -> (r: Result<String, String>)
    requires
        source@.len() < usize::MAX,
    ensures
        test_filename(path_str@) ==> (r matches Ok(s) && s@ == collapsed_skeleton(source@)),
        !test_filename(path_str@) ==> match parse_of(lang, source@) {
            Some(t) => (r matches Ok(s) && s@ == skeleton_of(t, source@, lang)),
            None => (r matches Err(e) && e@ == IndexError::ParseFailed.message_text()),
        },
{
    if is_test_filename(path_str) {
        return Ok(collapsed_test_skeleton(source));
    }
    match index_source(source, lang) {
        Ok(s) => Ok(s),
        Err(e) => Err(e.message()),
    }
}

} // verus!
