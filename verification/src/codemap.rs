//! The repository map: the tags that describe a file, and the map text
//! listing each file with its size, tags and public API.
use vstd::prelude::*;

use crate::deps::sorted::{
    cviews, lemma_lt_asymmetric, lemma_lt_total, lemma_lt_transitive, str_lt,
};
use crate::cache::{blake3_hex, content_hash};
use crate::index::{is_minified, minified};
use crate::text::{decode_utf8, utf8_of};
use crate::paths::{extension, extension_of, file_stem, file_stem_of, or_empty};
use crate::text::{
    decimal, decimal_of, is_ws, join, join_exec, push_all, push_str, string_of, texts_of,
    chars_of, contains, ends_with, has_prefix, has_substring, has_suffix, lines, lines_of,
    starts_with, str_is, trim, trimmed, views,
};

verus! {

/// Why a repository map could not be built.
pub enum CodeMapError {
    /// The root does not exist.
    PathNotFound(String),
    /// A glob pattern does not parse.
    InvalidGlob(String),
    /// Reading the file system failed.
    Io(String),
}

impl CodeMapError {
    /// The message of the error.
    pub open spec fn message_text(&self) -> Seq<char> {
        match self {
            CodeMapError::PathNotFound(p) => "path does not exist: "@ + p@,
            CodeMapError::InvalidGlob(g) => "invalid glob pattern: "@ + g@,
            CodeMapError::Io(e) => "IO error: "@ + e@,
        }
    }

    /// The message of the error, as it is shown to the user.
    pub fn message(&self) -> (r: String)
        ensures
            r@ == self.message_text(),
    {
        let (mut m, d) = match self {
            CodeMapError::PathNotFound(p) => (chars_of("path does not exist: "), chars_of(p.as_str())),
            CodeMapError::InvalidGlob(g) => (chars_of("invalid glob pattern: "), chars_of(g.as_str())),
            CodeMapError::Io(e) => (chars_of("IO error: "), chars_of(e.as_str())),
        };
        push_all(&mut m, d.as_slice());
        string_of(m.as_slice())
    }
}

/// The lines of `src`, trimmed.
pub open spec fn trimmed_lines(src: Seq<char>) -> Seq<Seq<char>> {
    lines(src).map_values(|l: Seq<char>| trim(l))
}

/// `t` starts with one of `pats`.
pub open spec fn starts_any(t: Seq<char>, pats: Seq<Seq<char>>) -> bool {
    exists|j: int| 0 <= j < pats.len() && starts_with(t, #[trigger] pats[j])
}

/// Some line of `tl` starts with one of `pats`.
pub open spec fn any_starts(tl: Seq<Seq<char>>, pats: Seq<Seq<char>>) -> bool {
    exists|i: int| 0 <= i < tl.len() && starts_any(#[trigger] tl[i], pats)
}

/// How many lines of `tl` start with one of `pats`.
pub open spec fn count_starts(tl: Seq<Seq<char>>, pats: Seq<Seq<char>>) -> nat
    decreases tl.len(),
{
    if tl.len() == 0 {
        0
    } else {
        count_starts(tl.drop_last(), pats) + if starts_any(tl.last(), pats) {
            1nat
        } else {
            0nat
        }
    }
}

/// The line a Go HTTP handler starts with.
pub open spec fn go_handler_line(t: Seq<char>) -> bool {
    (contains(t, "http.ResponseWriter"@) || contains(t, "*http.Request"@)) && starts_with(
        t,
        "func "@,
    )
}

/// The line a Go command line parse starts with.
pub open spec fn go_flag_line(t: Seq<char>) -> bool {
    starts_with(t, "flag.Parse()"@) || starts_with(t, "flag.String("@)
}

/// The line starts of a `main` in the language of `ext`.
pub open spec fn main_patterns(ext: Seq<char>) -> Seq<Seq<char>> {
    if ext == "rs"@ {
        seq!["fn main()"@]
    } else if ext == "go"@ {
        seq!["func main()"@]
    } else if ext == "py"@ || ext == "pyi"@ {
        seq!["def main("@]
    } else if ext == "java"@ {
        seq!["public static void main("@]
    } else {
        Seq::empty()
    }
}

/// The file name says the file holds tests.
pub open spec fn test_by_name(filename: Seq<char>, stem: Seq<char>, ext: Seq<char>) -> bool {
    ends_with(filename, "_test.go"@) || ((ext == "py"@ || ext == "pyi"@) && (starts_with(
        stem,
        "test_"@,
    ) || ends_with(stem, "_test"@))) || ends_with(stem, ".test"@) || ends_with(stem, ".spec"@)
        || (ext == "java"@ && (ends_with(stem, "Test"@) || ends_with(stem, "Tests"@)))
}

/// The file name is that of a module root.
pub open spec fn module_root_name(filename: Seq<char>) -> bool {
    ends_with(filename, "mod.rs"@) || ends_with(filename, "__init__.py"@) || ends_with(
        filename,
        "/index.ts"@,
    ) || ends_with(filename, "/index.js"@) || ends_with(filename, "/index.tsx"@) || ends_with(
        filename,
        "/index.jsx"@,
    )
}

pub open spec fn interface_patterns() -> Seq<Seq<char>> {
    seq!["pub trait "@, "export interface "@, "public interface "@]
}

pub open spec fn impl_patterns() -> Seq<Seq<char>> {
    seq!["impl "@]
}

pub open spec fn http_patterns() -> Seq<Seq<char>> {
    seq![
        "@GetMapping"@,
        "@PostMapping"@,
        "@RequestMapping"@,
        "@Path"@,
        "@app.route"@,
        "@router."@,
        "#[get("@,
        "#[post("@,
        "#[put("@,
        "#[delete("@,
    ]
}

pub open spec fn reexport_patterns() -> Seq<Seq<char>> {
    seq!["pub use "@, "pub mod "@, "export * from"@, "export {"@]
}

pub open spec fn cli_patterns() -> Seq<Seq<char>> {
    seq!["use clap"@, "#[derive(Parser"@, "import argparse"@, "from argparse"@]
}

/// `tag` when `cond` holds.
pub open spec fn tag_if(cond: bool, tag: Seq<char>) -> Seq<Seq<char>> {
    if cond {
        seq![tag]
    } else {
        Seq::empty()
    }
}

/// The tags of a file, in this order: entry-point (a public `main`, or a
/// line starting a `main` in the file's language), tests (by file name),
/// data-models (public types and no public functions), interfaces (a
/// trait or interface and no `impl`), http-handlers, error-types (a public
/// type named like an error), barrel-file (more re-export lines than
/// definitions, and at least three), cli, minified, module-root.
pub open spec fn tags_of(
    filename: Seq<char>,
    types: Seq<Seq<char>>,
    fns: Seq<Seq<char>>,
    source: Seq<u8>,
) -> Seq<Seq<char>> {
    let src = match utf8_of(source) {
        Some(s) => s,
        None => Seq::empty(),
    };
    tags_from(
        filename,
        types,
        fns,
        source,
        trimmed_lines(src),
        or_empty(file_stem_of(filename)),
        or_empty(extension_of(filename)),
    )
}

/// Some function of `fns` is a `main`.
pub open spec fn has_main(fns: Seq<Seq<char>>) -> bool {
    exists|k: int| 0 <= k < fns.len() && starts_with(#[trigger] fns[k], "main("@)
}

/// Some type of `types` is named like an error.
pub open spec fn has_error_type(types: Seq<Seq<char>>) -> bool {
    exists|k: int|
        0 <= k < types.len() && (contains(#[trigger] types[k], "Error"@) || contains(
            types[k],
            "Exception"@,
        ))
}

/// Some line of `tl` is a Go flag parse (`flags`) or a Go HTTP handler.
pub open spec fn has_go_line(tl: Seq<Seq<char>>, flags: bool) -> bool {
    exists|i: int| 0 <= i < tl.len() && go_line(#[trigger] tl[i], flags)
}

/// The tags of a file (see `tags_of`), from its trimmed lines `tl`, its
/// stem and its extension.
pub open spec fn tags_from(
    filename: Seq<char>,
    types: Seq<Seq<char>>,
    fns: Seq<Seq<char>>,
    source: Seq<u8>,
    tl: Seq<Seq<char>>,
    stem: Seq<char>,
    ext: Seq<char>,
) -> Seq<Seq<char>> {
    let entry = has_main(fns) || (main_patterns(ext).len() > 0 && any_starts(tl, main_patterns(ext)));
    let reexports = count_starts(tl, reexport_patterns());
    tag_if(entry, "entry-point"@) + tag_if(test_by_name(filename, stem, ext), "tests"@) + tag_if(
        types.len() > 0 && fns.len() == 0,
        "data-models"@,
    ) + tag_if(
        any_starts(tl, interface_patterns()) && !any_starts(tl, impl_patterns()),
        "interfaces"@,
    ) + tag_if(any_starts(tl, http_patterns()) || has_go_line(tl, false), "http-handlers"@)
        + tag_if(has_error_type(types), "error-types"@) + tag_if(
        reexports > fns.len() + types.len() && reexports >= 3,
        "barrel-file"@,
    ) + tag_if(any_starts(tl, cli_patterns()) || has_go_line(tl, true), "cli"@) + tag_if(
        minified(source),
        "minified"@,
    ) + tag_if(module_root_name(filename), "module-root"@)
}

/// An element of a concatenation is an element of one of its parts.
pub proof fn lemma_concat_contains(a: Seq<Seq<char>>, b: Seq<Seq<char>>, v: Seq<char>)
    ensures
        (a + b).contains(v) <==> a.contains(v) || b.contains(v),
{
    if (a + b).contains(v) {
        let k = choose|k: int| 0 <= k < (a + b).len() && (a + b)[k] == v;
        if k < a.len() {
            assert(a[k] == v);
        } else {
            assert(b[k - a.len()] == v);
        }
    }
    if a.contains(v) {
        let k = choose|k: int| 0 <= k < a.len() && a[k] == v;
        assert((a + b)[k] == v);
    }
    if b.contains(v) {
        let k = choose|k: int| 0 <= k < b.len() && b[k] == v;
        assert((a + b)[a.len() + k] == v);
    }
}

/// A tag list of one tag holds only that tag.
pub proof fn lemma_tag_if_contains(c: bool, tag: Seq<char>, v: Seq<char>)
    ensures
        tag_if(c, tag).contains(v) ==> v == tag,
{
    if tag_if(c, tag).contains(v) {
        let k = choose|k: int| 0 <= k < tag_if(c, tag).len() && tag_if(c, tag)[k] == v;
        assert(k == 0);
    }
}

/// A file with a line that starts a function taking an
/// `http.ResponseWriter` or an `*http.Request` (a Go HTTP handler) is
/// tagged as holding HTTP handlers.
pub proof fn law_go_handler_is_tagged(
    filename: Seq<char>,
    types: Seq<Seq<char>>,
    fns: Seq<Seq<char>>,
    source: Seq<u8>,
    text: Seq<char>,
    i: int,
)
    requires
        utf8_of(source) == Some(text),
        0 <= i < lines(text).len(),
        starts_with(trim(lines(text)[i]), "func "@),
        contains(trim(lines(text)[i]), "http.ResponseWriter"@) || contains(
            trim(lines(text)[i]),
            "*http.Request"@,
        ),
    ensures
        tags_of(filename, types, fns, source).contains("http-handlers"@),
{
    let tl = trimmed_lines(text);
    assert(tl[i] == trim(lines(text)[i]));
    assert(go_line(tl[i], false));
    assert(has_go_line(tl, false));
    let stem = or_empty(file_stem_of(filename));
    let ext = or_empty(extension_of(filename));
    let entry = has_main(fns) || (main_patterns(ext).len() > 0 && any_starts(tl, main_patterns(ext)));
    let reexports = count_starts(tl, reexport_patterns());
    let a = tag_if(entry, "entry-point"@) + tag_if(test_by_name(filename, stem, ext), "tests"@) + tag_if(
        types.len() > 0 && fns.len() == 0,
        "data-models"@,
    ) + tag_if(
        any_starts(tl, interface_patterns()) && !any_starts(tl, impl_patterns()),
        "interfaces"@,
    );
    let h = tag_if(any_starts(tl, http_patterns()) || has_go_line(tl, false), "http-handlers"@);
    let b = tag_if(has_error_type(types), "error-types"@) + tag_if(
        reexports > fns.len() + types.len() && reexports >= 3,
        "barrel-file"@,
    ) + tag_if(any_starts(tl, cli_patterns()) || has_go_line(tl, true), "cli"@) + tag_if(
        minified(source),
        "minified"@,
    ) + tag_if(module_root_name(filename), "module-root"@);
    let all = tags_from(filename, types, fns, source, tl, stem, ext);
    assert(h[0] == "http-handlers"@);
    assert(h.contains("http-handlers"@));
    lemma_concat_contains(a, h, "http-handlers"@);
    let ah = a + h;
    let e1 = tag_if(has_error_type(types), "error-types"@);
    let e2 = tag_if(reexports > fns.len() + types.len() && reexports >= 3, "barrel-file"@);
    let e3 = tag_if(any_starts(tl, cli_patterns()) || has_go_line(tl, true), "cli"@);
    let e4 = tag_if(minified(source), "minified"@);
    let e5 = tag_if(module_root_name(filename), "module-root"@);
    lemma_concat_contains(ah, e1, "http-handlers"@);
    lemma_concat_contains(ah + e1, e2, "http-handlers"@);
    lemma_concat_contains(ah + e1 + e2, e3, "http-handlers"@);
    lemma_concat_contains(ah + e1 + e2 + e3, e4, "http-handlers"@);
    lemma_concat_contains(ah + e1 + e2 + e3 + e4, e5, "http-handlers"@);
    assert(all == ah + e1 + e2 + e3 + e4 + e5);
}

/// A file with a line that starts a Go command-line parse
/// (`flag.Parse()` or `flag.String(`) is tagged `cli`.
pub proof fn law_go_flag_parse_is_tagged(
    filename: Seq<char>,
    types: Seq<Seq<char>>,
    fns: Seq<Seq<char>>,
    source: Seq<u8>,
    text: Seq<char>,
    i: int,
)
    requires
        utf8_of(source) == Some(text),
        0 <= i < lines(text).len(),
        starts_with(trim(lines(text)[i]), "flag.Parse()"@) || starts_with(
            trim(lines(text)[i]),
            "flag.String("@,
        ),
    ensures
        tags_of(filename, types, fns, source).contains("cli"@),
{
    let tl = trimmed_lines(text);
    assert(tl[i] == trim(lines(text)[i]));
    assert(go_line(tl[i], true));
    assert(has_go_line(tl, true));
    let stem = or_empty(file_stem_of(filename));
    let ext = or_empty(extension_of(filename));
    let entry = has_main(fns) || (main_patterns(ext).len() > 0 && any_starts(tl, main_patterns(ext)));
    let reexports = count_starts(tl, reexport_patterns());
    let a = tag_if(entry, "entry-point"@) + tag_if(test_by_name(filename, stem, ext), "tests"@) + tag_if(
        types.len() > 0 && fns.len() == 0,
        "data-models"@,
    ) + tag_if(
        any_starts(tl, interface_patterns()) && !any_starts(tl, impl_patterns()),
        "interfaces"@,
    ) + tag_if(any_starts(tl, http_patterns()) || has_go_line(tl, false), "http-handlers"@)
        + tag_if(has_error_type(types), "error-types"@) + tag_if(
        reexports > fns.len() + types.len() && reexports >= 3,
        "barrel-file"@,
    );
    let c = tag_if(any_starts(tl, cli_patterns()) || has_go_line(tl, true), "cli"@);
    let e4 = tag_if(minified(source), "minified"@);
    let e5 = tag_if(module_root_name(filename), "module-root"@);
    assert(c[0] == "cli"@);
    assert(c.contains("cli"@));
    lemma_concat_contains(a, c, "cli"@);
    lemma_concat_contains(a + c, e4, "cli"@);
    lemma_concat_contains(a + c + e4, e5, "cli"@);
    assert(tags_from(filename, types, fns, source, tl, stem, ext) == a + c + e4 + e5);
}

/// Only a command-line parse gives the `cli` tag: a file none of whose
/// lines (trimmed) starts with `flag.Parse()`, `flag.String(`, `use clap`,
/// `#[derive(Parser`, `import argparse` or `from argparse` is not tagged
/// `cli`.
pub proof fn law_cli_needs_a_parse(
    filename: Seq<char>,
    types: Seq<Seq<char>>,
    fns: Seq<Seq<char>>,
    source: Seq<u8>,
    text: Seq<char>,
)
    requires
        utf8_of(source) == Some(text),
        forall|i: int|
            0 <= i < lines(text).len() ==> {
                let t = trim(#[trigger] lines(text)[i]);
                &&& !starts_with(t, "flag.Parse()"@)
                &&& !starts_with(t, "flag.String("@)
                &&& !starts_with(t, "use clap"@)
                &&& !starts_with(t, "#[derive(Parser"@)
                &&& !starts_with(t, "import argparse"@)
                &&& !starts_with(t, "from argparse"@)
            },
    ensures
        !tags_of(filename, types, fns, source).contains("cli"@),
{
    let tl = trimmed_lines(text);
    assert forall|i: int| 0 <= i < tl.len() implies !go_line(#[trigger] tl[i], true) && !starts_any(
        tl[i],
        cli_patterns(),
    ) by {
        assert(tl[i] == trim(lines(text)[i]));
        let pats = cli_patterns();
        assert forall|j: int| 0 <= j < pats.len() implies !starts_with(tl[i], #[trigger] pats[j]) by {
            assert(pats[0] == "use clap"@);
            assert(pats[1] == "#[derive(Parser"@);
            assert(pats[2] == "import argparse"@);
            assert(pats[3] == "from argparse"@);
        }
    }
    assert(!has_go_line(tl, true));
    assert(!any_starts(tl, cli_patterns()));
    reveal_strlit("cli");
    reveal_strlit("entry-point");
    reveal_strlit("tests");
    reveal_strlit("data-models");
    reveal_strlit("interfaces");
    reveal_strlit("http-handlers");
    reveal_strlit("error-types");
    reveal_strlit("barrel-file");
    reveal_strlit("minified");
    reveal_strlit("module-root");
    let stem = or_empty(file_stem_of(filename));
    let ext = or_empty(extension_of(filename));
    let entry = has_main(fns) || (main_patterns(ext).len() > 0 && any_starts(tl, main_patterns(ext)));
    let reexports = count_starts(tl, reexport_patterns());
    let t1 = tag_if(entry, "entry-point"@);
    let t2 = tag_if(test_by_name(filename, stem, ext), "tests"@);
    let t3 = tag_if(types.len() > 0 && fns.len() == 0, "data-models"@);
    let t4 = tag_if(any_starts(tl, interface_patterns()) && !any_starts(tl, impl_patterns()), "interfaces"@);
    let t5 = tag_if(any_starts(tl, http_patterns()) || has_go_line(tl, false), "http-handlers"@);
    let t6 = tag_if(has_error_type(types), "error-types"@);
    let t7 = tag_if(reexports > fns.len() + types.len() && reexports >= 3, "barrel-file"@);
    let t8 = tag_if(any_starts(tl, cli_patterns()) || has_go_line(tl, true), "cli"@);
    let t9 = tag_if(minified(source), "minified"@);
    let t10 = tag_if(module_root_name(filename), "module-root"@);
    assert(t8 =~= Seq::<Seq<char>>::empty());
    assert("cli"@.len() == 3);
    assert("entry-point"@.len() == 11);
    assert("tests"@.len() == 5);
    assert("data-models"@.len() == 11);
    assert("interfaces"@.len() == 10);
    assert("http-handlers"@.len() == 13);
    assert("error-types"@.len() == 11);
    assert("barrel-file"@.len() == 11);
    assert("minified"@.len() == 8);
    assert("module-root"@.len() == 11);
    lemma_tag_if_contains(entry, "entry-point"@, "cli"@);
    lemma_tag_if_contains(test_by_name(filename, stem, ext), "tests"@, "cli"@);
    lemma_tag_if_contains(types.len() > 0 && fns.len() == 0, "data-models"@, "cli"@);
    lemma_tag_if_contains(
        any_starts(tl, interface_patterns()) && !any_starts(tl, impl_patterns()),
        "interfaces"@,
        "cli"@,
    );
    lemma_tag_if_contains(any_starts(tl, http_patterns()) || has_go_line(tl, false), "http-handlers"@, "cli"@);
    lemma_tag_if_contains(has_error_type(types), "error-types"@, "cli"@);
    lemma_tag_if_contains(reexports > fns.len() + types.len() && reexports >= 3, "barrel-file"@, "cli"@);
    lemma_tag_if_contains(minified(source), "minified"@, "cli"@);
    lemma_tag_if_contains(module_root_name(filename), "module-root"@, "cli"@);
    assert(!t8.contains("cli"@));
    lemma_concat_contains(t1, t2, "cli"@);
    lemma_concat_contains(t1 + t2, t3, "cli"@);
    lemma_concat_contains(t1 + t2 + t3, t4, "cli"@);
    lemma_concat_contains(t1 + t2 + t3 + t4, t5, "cli"@);
    lemma_concat_contains(t1 + t2 + t3 + t4 + t5, t6, "cli"@);
    lemma_concat_contains(t1 + t2 + t3 + t4 + t5 + t6, t7, "cli"@);
    lemma_concat_contains(t1 + t2 + t3 + t4 + t5 + t6 + t7, t8, "cli"@);
    lemma_concat_contains(t1 + t2 + t3 + t4 + t5 + t6 + t7 + t8, t9, "cli"@);
    lemma_concat_contains(t1 + t2 + t3 + t4 + t5 + t6 + t7 + t8 + t9, t10, "cli"@);
    assert(tags_from(filename, types, fns, source, tl, stem, ext) == t1 + t2 + t3 + t4 + t5 + t6 + t7 + t8
        + t9 + t10);
}

/// Whether `t` starts with one of `pats`.
fn starts_any_exec(t: &[char], pats: &Vec<Vec<char>>) -> (b: bool)
    ensures
        b == starts_any(t@, cviews(pats@)),
{
    let mut j: usize = 0;
    while j < pats.len()
        invariant
            j <= pats@.len(),
            forall|k: int| 0 <= k < j ==> !starts_with(t@, #[trigger] cviews(pats@)[k]),
        decreases pats@.len() - j,
    {
        if has_prefix(t, pats[j].as_slice()) {
            assert(starts_with(t@, cviews(pats@)[j as int]));
            return true;
        }
        j += 1;
    }
    false
}

/// Whether some line of `tl` starts with one of `pats`.
fn any_starts_exec(tl: &Vec<Vec<char>>, pats: &Vec<Vec<char>>) -> (b: bool)
    ensures
        b == any_starts(cviews(tl@), cviews(pats@)),
{
    let mut i: usize = 0;
    while i < tl.len()
        invariant
            i <= tl@.len(),
            forall|k: int| 0 <= k < i ==> !starts_any(#[trigger] cviews(tl@)[k], cviews(pats@)),
        decreases tl@.len() - i,
    {
        if starts_any_exec(tl[i].as_slice(), pats) {
            assert(starts_any(cviews(tl@)[i as int], cviews(pats@)));
            return true;
        }
        i += 1;
    }
    false
}

/// How many lines of `tl` start with one of `pats`.
fn count_starts_exec(tl: &Vec<Vec<char>>, pats: &Vec<Vec<char>>) -> (n: usize)
    ensures
        n == count_starts(cviews(tl@), cviews(pats@)),
{
    let mut n: usize = 0;
    let mut i: usize = 0;
    while i < tl.len()
        invariant
            i <= tl@.len(),
            n <= i,
            n == count_starts(cviews(tl@).take(i as int), cviews(pats@)),
        decreases tl@.len() - i,
    {
        assert(cviews(tl@).take(i + 1).drop_last() =~= cviews(tl@).take(i as int));
        if starts_any_exec(tl[i].as_slice(), pats) {
            n += 1;
        }
        i += 1;
    }
    assert(cviews(tl@).take(i as int) =~= cviews(tl@));
    n
}

/// The line is a Go flag parse (`flags`) or a Go HTTP handler.
pub open spec fn go_line(t: Seq<char>, flags: bool) -> bool {
    if flags {
        go_flag_line(t)
    } else {
        go_handler_line(t)
    }
}

/// Whether some line of `tl` is a Go flag parse (`flags`) or a Go HTTP
/// handler.
fn any_go_line(tl: &Vec<Vec<char>>, flags: bool) -> (b: bool)
    ensures
        b == has_go_line(cviews(tl@), flags),
{
    let w = chars_of("http.ResponseWriter");
    let rq = chars_of("*http.Request");
    let fu = chars_of("func ");
    let fp = chars_of("flag.Parse()");
    let fs = chars_of("flag.String(");
    let mut i: usize = 0;
    while i < tl.len()
        invariant
            i <= tl@.len(),
            w@ == "http.ResponseWriter"@,
            rq@ == "*http.Request"@,
            fu@ == "func "@,
            fp@ == "flag.Parse()"@,
            fs@ == "flag.String("@,
            forall|k: int| 0 <= k < i ==> !go_line(#[trigger] cviews(tl@)[k], flags),
        decreases tl@.len() - i,
    {
        let t = tl[i].as_slice();
        assert(t@ == cviews(tl@)[i as int]);
        let hit = if flags {
            has_prefix(t, fp.as_slice()) || has_prefix(t, fs.as_slice())
        } else {
            (has_substring(t, w.as_slice()) || has_substring(t, rq.as_slice())) && has_prefix(
                t,
                fu.as_slice(),
            )
        };
        if hit {
            assert(go_line(cviews(tl@)[i as int], flags));
            return true;
        }
        i += 1;
    }
    false
}


/// Appends `tag` when `cond` holds.
fn push_tag_if(tags: &mut Vec<String>, cond: bool, tag: &str)
    ensures
        views(final(tags)@) == views(old(tags)@) + tag_if(cond, tag@),
{
    let ghost t0 = views(tags@);
    if cond {
        tags.push(String::from_str(tag));
        assert(views(tags@) =~= t0 + tag_if(cond, tag@));
    } else {
        assert(views(tags@) =~= t0 + tag_if(cond, tag@));
    }
}

/// The line starts of a `main` in the language of `ext`.
fn main_patterns_exec(ext: &str) -> (r: Vec<Vec<char>>)
    ensures
        cviews(r@) == main_patterns(ext@),
{
    let mut r: Vec<Vec<char>> = Vec::new();
    if str_is(ext, "rs") {
        r.push(chars_of("fn main()"));
    } else if str_is(ext, "go") {
        r.push(chars_of("func main()"));
    } else if str_is(ext, "py") || str_is(ext, "pyi") {
        r.push(chars_of("def main("));
    } else if str_is(ext, "java") {
        r.push(chars_of("public static void main("));
    }
    assert(cviews(r@) =~= main_patterns(ext@));
    r
}

/// Whether the file name says the file holds tests.
fn test_by_name_exec(filename: &str, stem: &str, ext: &str) -> (b: bool)
    ensures
        b == test_by_name(filename@, stem@, ext@),
{
    let f = chars_of(filename);
    let s = chars_of(stem);
    let py = str_is(ext, "py") || str_is(ext, "pyi");
    let java = str_is(ext, "java");
    has_suffix(f.as_slice(), chars_of("_test.go").as_slice()) || (py && (has_prefix(
        s.as_slice(),
        chars_of("test_").as_slice(),
    ) || has_suffix(s.as_slice(), chars_of("_test").as_slice()))) || has_suffix(
        s.as_slice(),
        chars_of(".test").as_slice(),
    ) || has_suffix(s.as_slice(), chars_of(".spec").as_slice()) || (java && (has_suffix(
        s.as_slice(),
        chars_of("Test").as_slice(),
    ) || has_suffix(s.as_slice(), chars_of("Tests").as_slice())))
}

/// Whether the file name is that of a module root.
fn module_root_exec(filename: &str) -> (b: bool)
    ensures
        b == module_root_name(filename@),
{
    let f = chars_of(filename);
    has_suffix(f.as_slice(), chars_of("mod.rs").as_slice()) || has_suffix(
        f.as_slice(),
        chars_of("__init__.py").as_slice(),
    ) || has_suffix(f.as_slice(), chars_of("/index.ts").as_slice()) || has_suffix(
        f.as_slice(),
        chars_of("/index.js").as_slice(),
    ) || has_suffix(f.as_slice(), chars_of("/index.tsx").as_slice()) || has_suffix(
        f.as_slice(),
        chars_of("/index.jsx").as_slice(),
    )
}

/// The tags that describe a file (see `tags_of`): its role (entry point,
/// tests, module root), what it defines (data models, interfaces, error
/// types, HTTP handlers, a command line), whether it mostly re-exports and
/// whether it is minified.
#[verifier::spinoff_prover]
#[verifier::rlimit(60)]
pub fn compute_tags(
    filename: &str,
    public_types: &[String],
    public_functions: &[String],
    source: &[u8],
) -> (tags: Vec<String>)
    ensures
        views(tags@) == tags_of(filename@, views(public_types@), views(public_functions@), source@),
{
    let src: Vec<char> = match decode_utf8(source) {
        Some(v) => v,
        None => Vec::new(),
    };
    let ls = lines_of(src.as_slice());
    let mut tl: Vec<Vec<char>> = Vec::new();
    let mut i: usize = 0;
    while i < ls.len()
        invariant
            i <= ls@.len(),
            ls@.len() == lines(src@).len(),
            forall|k: int| 0 <= k < ls@.len() ==> #[trigger] ls@[k]@ == lines(src@)[k],
            cviews(tl@) == trimmed_lines(src@).take(i as int),
        decreases ls@.len() - i,
    {
        let t = trimmed(ls[i].as_slice());
        let ghost t0 = cviews(tl@);
        tl.push(t);
        assert(cviews(tl@) =~= t0.push(t@));
        assert(trimmed_lines(src@).take(i + 1) =~= trimmed_lines(src@).take(i as int).push(
            trim(lines(src@)[i as int]),
        ));
        i += 1;
    }
    assert(trimmed_lines(src@).take(i as int) =~= trimmed_lines(src@));
    let ghost tv = cviews(tl@);
    let stem = crate::paths::or_empty_string(file_stem(filename));
    let ext = crate::paths::or_empty_string(extension(filename));
    let mut tags: Vec<String> = Vec::new();
    let ghost types = views(public_types@);
    let ghost fns = views(public_functions@);
    // entry point
    let mainp = chars_of("main(");
    let mut entry = false;
    let mut k: usize = 0;
    while k < public_functions.len()
        invariant
            k <= public_functions@.len(),
            fns == views(public_functions@),
            mainp@ == "main("@,
            entry == (exists|j: int| 0 <= j < k && starts_with(#[trigger] fns[j], "main("@)),
        decreases public_functions@.len() - k,
    {
        let f = chars_of(public_functions[k].as_str());
        assert(f@ == fns[k as int]);
        if has_prefix(f.as_slice(), mainp.as_slice()) {
            entry = true;
        }
        k += 1;
    }
    if !entry {
        let mp = main_patterns_exec(ext.as_str());
        if mp.len() > 0 && any_starts_exec(&tl, &mp) {
            entry = true;
        }
    }
    let ghost srcv = match utf8_of(source@) {
        Some(x) => x,
        None => Seq::<char>::empty(),
    };
    assert(src@ == srcv);
    assert(tv == trimmed_lines(srcv));
    assert(stem@ == or_empty(file_stem_of(filename@)));
    assert(ext@ == or_empty(extension_of(filename@)));
    assert(entry == (has_main(fns) || (main_patterns(ext@).len() > 0 && any_starts(
        tv,
        main_patterns(ext@),
    ))));
    push_tag_if(&mut tags, entry, "entry-point");
    push_tag_if(&mut tags, test_by_name_exec(filename, stem.as_str(), ext.as_str()), "tests");
    push_tag_if(
        &mut tags,
        public_types.len() > 0 && public_functions.len() == 0,
        "data-models",
    );
    // interfaces
    let mut ip: Vec<Vec<char>> = Vec::new();
    ip.push(chars_of("pub trait "));
    ip.push(chars_of("export interface "));
    ip.push(chars_of("public interface "));
    assert(cviews(ip@) =~= interface_patterns());
    let mut imp: Vec<Vec<char>> = Vec::new();
    imp.push(chars_of("impl "));
    assert(cviews(imp@) =~= impl_patterns());
    let iface = any_starts_exec(&tl, &ip) && !any_starts_exec(&tl, &imp);
    push_tag_if(&mut tags, iface, "interfaces");
    // http handlers
    let mut hp: Vec<Vec<char>> = Vec::new();
    hp.push(chars_of("@GetMapping"));
    hp.push(chars_of("@PostMapping"));
    hp.push(chars_of("@RequestMapping"));
    hp.push(chars_of("@Path"));
    hp.push(chars_of("@app.route"));
    hp.push(chars_of("@router."));
    hp.push(chars_of("#[get("));
    hp.push(chars_of("#[post("));
    hp.push(chars_of("#[put("));
    hp.push(chars_of("#[delete("));
    assert(cviews(hp@) =~= http_patterns());
    let http = any_starts_exec(&tl, &hp) || any_go_line(&tl, false);
    push_tag_if(&mut tags, http, "http-handlers");
    // error types
    let er = chars_of("Error");
    let ex = chars_of("Exception");
    let mut errors = false;
    let mut k: usize = 0;
    while k < public_types.len()
        invariant
            k <= public_types@.len(),
            types == views(public_types@),
            er@ == "Error"@,
            ex@ == "Exception"@,
            errors == (exists|j: int|
                0 <= j < k && (contains(#[trigger] types[j], "Error"@) || contains(
                    types[j],
                    "Exception"@,
                ))),
        decreases public_types@.len() - k,
    {
        let t = chars_of(public_types[k].as_str());
        assert(t@ == types[k as int]);
        if has_substring(t.as_slice(), er.as_slice()) || has_substring(t.as_slice(), ex.as_slice()) {
            errors = true;
        }
        k += 1;
    }
    push_tag_if(&mut tags, errors, "error-types");
    // barrel file
    let mut rp: Vec<Vec<char>> = Vec::new();
    rp.push(chars_of("pub use "));
    rp.push(chars_of("pub mod "));
    rp.push(chars_of("export * from"));
    rp.push(chars_of("export {"));
    assert(cviews(rp@) =~= reexport_patterns());
    let reexports = count_starts_exec(&tl, &rp);
    let barrel = reexports >= 3 && reexports > public_functions.len() && reexports
        - public_functions.len() > public_types.len();
    push_tag_if(&mut tags, barrel, "barrel-file");
    // command line
    let mut cp: Vec<Vec<char>> = Vec::new();
    cp.push(chars_of("use clap"));
    cp.push(chars_of("#[derive(Parser"));
    cp.push(chars_of("import argparse"));
    cp.push(chars_of("from argparse"));
    assert(cviews(cp@) =~= cli_patterns());
    let cli = any_starts_exec(&tl, &cp) || any_go_line(&tl, true);
    push_tag_if(&mut tags, cli, "cli");
    push_tag_if(&mut tags, is_minified(source), "minified");
    push_tag_if(&mut tags, module_root_exec(filename), "module-root");
    assert(iface == (any_starts(tv, interface_patterns()) && !any_starts(tv, impl_patterns())));
    assert(errors == has_error_type(types));
    assert(barrel == (count_starts(tv, reexport_patterns()) > fns.len() + types.len() && count_starts(tv, reexport_patterns()) >= 3));
    assert(views(tags@) =~= tags_from(filename@, types, fns, source@, tv, stem@, ext@));
    tags
}

/// How many files the map lists flat; more are grouped by directory.
pub const GROUPING_THRESHOLD: usize = 100;

/// Above this many public functions the list is cut.
pub const FN_TRUNCATE_THRESHOLD: usize = 8;

/// Above this many public types the list is cut.
pub const TYPE_TRUNCATE_THRESHOLD: usize = 12;

/// How many public functions a cut list shows.
pub const FN_TRUNCATE_SHOW: usize = 6;

/// How many public types a cut list shows.
pub const TYPE_TRUNCATE_SHOW: usize = 10;

/// One file of the map: its path (relative, with `/`), its line count, its
/// public API and tags, and whether it failed to parse.
pub struct FileResult {
    pub path: String,
    pub lines: usize,
    pub public_types: Vec<String>,
    pub public_functions: Vec<String>,
    pub tags: Vec<String>,
    pub parse_error: bool,
}

/// The end of the word of `t` that goes on at `i`.
pub open spec fn word_end(t: Seq<char>, i: int) -> int
    decreases t.len() - i,
{
    if i < 0 || i >= t.len() || is_ws(t[i]) {
        if i < 0 {
            0
        } else if i >= t.len() {
            t.len() as int
        } else {
            i
        }
    } else {
        word_end(t, i + 1)
    }
}

pub proof fn lemma_word_end(t: Seq<char>, i: int)
    requires
        0 <= i <= t.len(),
    ensures
        i <= word_end(t, i) <= t.len(),
        i < t.len() && !is_ws(t[i]) ==> i < word_end(t, i),
        forall|k: int| i <= k < word_end(t, i) ==> !is_ws(#[trigger] t[k]),
    decreases t.len() - i,
{
    if i < t.len() && !is_ws(t[i]) {
        lemma_word_end(t, i + 1);
    }
}

/// The whitespace-separated words of `t` from position `i` on
/// (`str::split_whitespace`).
pub open spec fn words_from(t: Seq<char>, i: int) -> Seq<Seq<char>>
    decreases t.len() - i,
{
    if i < 0 || i >= t.len() {
        Seq::empty()
    } else if is_ws(t[i]) {
        words_from(t, i + 1)
    } else {
        let e = word_end(t, i);
        proof {
            lemma_word_end(t, i);
        }
        seq![t.subrange(i, e)] + words_from(t, e)
    }
}

/// The words of `t`.
pub open spec fn words(t: Seq<char>) -> Seq<Seq<char>> {
    words_from(t, 0)
}

/// The position of the first `(` or `:` in `s` from `i` on, or its length.
pub open spec fn first_delim(s: Seq<char>, i: int) -> int
    decreases s.len() - i,
{
    if i < 0 {
        0
    } else if i >= s.len() {
        s.len() as int
    } else if s[i] == '(' || s[i] == ':' {
        i
    } else {
        first_delim(s, i + 1)
    }
}

/// The bare name of a signature: the last word before the first `(` or
/// `:`, or the whole text when there is none.
pub open spec fn name_only(s: Seq<char>) -> Seq<char> {
    let ws = words(s.take(first_delim(s, 0)));
    if ws.len() > 0 {
        ws.last()
    } else {
        s
    }
}

/// The words of `t`.
fn words_exec(t: &[char]) -> (r: Vec<Vec<char>>)
    ensures
        cviews(r@) == words(t@),
{
    let mut r: Vec<Vec<char>> = Vec::new();
    let mut i: usize = 0;
    assert(cviews(r@) + words_from(t@, 0) =~= words_from(t@, 0));
    while i < t.len()
        invariant
            i <= t@.len(),
            cviews(r@) + words_from(t@, i as int) == words_from(t@, 0),
        decreases t@.len() - i,
    {
        if crate::text::is_ws_exec(t[i]) {
            i += 1;
        } else {
            let mut e = i + 1;
            proof {
                lemma_word_end(t@, i as int);
                lemma_word_end(t@, i + 1);
            }
            while e < t.len() && !crate::text::is_ws_exec(t[e])
                invariant
                    i < e <= t@.len(),
                    word_end(t@, i as int) == word_end(t@, e as int),
                decreases t@.len() - e,
            {
                e += 1;
            }
            let w = crate::text::copy_range(t, i, e);
            let ghost r0 = cviews(r@);
            r.push(w);
            assert(cviews(r@) =~= r0.push(w@));
            assert(r0.push(w@) + words_from(t@, e as int) =~= r0 + (seq![w@] + words_from(
                t@,
                e as int,
            )));
            i = e;
        }
    }
    assert(cviews(r@) =~= cviews(r@) + words_from(t@, i as int));
    r
}

/// The bare name of a signature (see `name_only`).
fn name_only_exec(s: &String) -> (r: String)
    ensures
        r@ == name_only(s@),
{
    let c = chars_of(s.as_str());
    let mut i: usize = 0;
    while i < c.len() && c[i] != '(' && c[i] != ':'
        invariant
            i <= c@.len(),
            first_delim(c@, 0) == first_delim(c@, i as int),
        decreases c@.len() - i,
    {
        i += 1;
    }
    let head = crate::text::copy_range(c.as_slice(), 0, i);
    assert(head@ =~= c@.take(first_delim(c@, 0)));
    let ws = words_exec(head.as_slice());
    if ws.len() > 0 {
        string_of(ws[ws.len() - 1].as_slice())
    } else {
        string_of(c.as_slice())
    }
}

/// The bare names of signatures.
pub fn format_names_only(items: &[String]) -> (r: Vec<String>)
    ensures
        views(r@) == views(items@).map_values(|s: Seq<char>| name_only(s)),
{
    let mut r: Vec<String> = Vec::new();
    let mut i: usize = 0;
    while i < items.len()
        invariant
            i <= items@.len(),
            views(r@) == views(items@).map_values(|s: Seq<char>| name_only(s)).take(i as int),
        decreases items@.len() - i,
    {
        let n = name_only_exec(&items[i]);
        let ghost r0 = views(r@);
        r.push(n);
        assert(views(r@) =~= r0.push(n@));
        assert(views(items@).map_values(|s: Seq<char>| name_only(s)).take(i + 1) =~= views(
            items@,
        ).map_values(|s: Seq<char>| name_only(s)).take(i as int).push(name_only(items@[i as int]@)));
        i += 1;
    }
    assert(views(items@).map_values(|s: Seq<char>| name_only(s)).take(i as int) =~= views(
        items@,
    ).map_values(|s: Seq<char>| name_only(s)));
    r
}

/// The items a cut list shows.
pub open spec fn shown(items: Seq<Seq<char>>, threshold: nat, show: nat) -> Seq<Seq<char>> {
    if items.len() > threshold {
        items.take(show as int)
    } else {
        items
    }
}

/// How many items a cut list leaves out.
pub open spec fn left_out(n: nat, threshold: nat, show: nat) -> nat {
    if n > threshold {
        (n - show) as nat
    } else {
        0
    }
}

/// A list cut when it has more than `threshold` items: the first `show`
/// and how many were left out.
pub fn truncate_list(items: &[String], threshold: usize, show: usize) -> (r: (Vec<String>, usize))
    requires
        items@.len() > threshold ==> show <= items@.len(),
    ensures
        views(r.0@) == shown(views(items@), threshold as nat, show as nat),
        r.1 == left_out(items@.len(), threshold as nat, show as nat),
{
    let n = if items.len() > threshold {
        show
    } else {
        items.len()
    };
    let mut v: Vec<String> = Vec::new();
    let mut i: usize = 0;
    while i < n
        invariant
            n <= items@.len(),
            i <= n,
            views(v@) == views(items@).take(i as int),
        decreases n - i,
    {
        let c = copy_string(&items[i]);
        let ghost v0 = views(v@);
        v.push(c);
        assert(views(v@) =~= v0.push(items@[i as int]@));
        assert(views(items@).take(i + 1) =~= views(items@).take(i as int).push(items@[i as int]@));
        i += 1;
    }
    assert(views(items@).take(items@.len() as int) =~= views(items@));
    let more = if items.len() > threshold {
        items.len() - show
    } else {
        0
    };
    (v, more)
}

/// A copy of a string.
fn copy_string(s: &String) -> (r: String)
    ensures
        r@ == s@,
{
    let c = chars_of(s.as_str());
    string_of(c.as_slice())
}

/// The tags of a file as " [a] [b]", or nothing.
pub open spec fn tags_text(tags: Seq<Seq<char>>) -> Seq<char> {
    if tags.len() == 0 {
        Seq::empty()
    } else {
        " "@ + join(tags.map_values(|t: Seq<char>| "["@ + t + "]"@), " "@)
    }
}

/// The note after a cut list.
pub open spec fn more_note(more: nat) -> Seq<char> {
    if more > 0 {
        ", ... +"@ + decimal(more) + " more (use xray for full list)"@
    } else {
        Seq::empty()
    }
}

/// A listed API: "(none)", or the shown items and the note.
pub open spec fn api_text(items: Seq<Seq<char>>, more: nat) -> Seq<char> {
    if items.len() == 0 {
        "(none)"@
    } else {
        join(items, ", "@) + more_note(more)
    }
}

/// A signature with its whitespace runs made single spaces.
pub open spec fn one_line(f: Seq<char>) -> Seq<char> {
    join(words(f), " "@)
}

/// The line of one file in the flat map.
pub open spec fn flat_line(fr: FileResult) -> Seq<char> {
    if fr.parse_error {
        "- "@ + fr.path@ + " ("@ + decimal(fr.lines as nat) + " lines) (parse error)\n"@
    } else {
        let types = views(fr.public_types@);
        let fns = views(fr.public_functions@);
        "- "@ + fr.path@ + " ("@ + decimal(fr.lines as nat) + " lines)"@ + tags_text(
            views(fr.tags@),
        ) + " - public_types: "@ + api_text(
            shown(types, TYPE_TRUNCATE_THRESHOLD as nat, TYPE_TRUNCATE_SHOW as nat),
            left_out(types.len(), TYPE_TRUNCATE_THRESHOLD as nat, TYPE_TRUNCATE_SHOW as nat),
        ) + " - public_functions: "@ + api_text(
            shown(fns, FN_TRUNCATE_THRESHOLD as nat, FN_TRUNCATE_SHOW as nat).map_values(
                |f: Seq<char>| one_line(f),
            ),
            left_out(fns.len(), FN_TRUNCATE_THRESHOLD as nat, FN_TRUNCATE_SHOW as nat),
        ) + "\n"@
    }
}

/// The flat map of `rs`: one line per file.
pub open spec fn flat_text(rs: Seq<FileResult>) -> Seq<char>
    decreases rs.len(),
{
    if rs.len() == 0 {
        Seq::empty()
    } else {
        flat_text(rs.drop_last()) + flat_line(rs.last())
    }
}

/// Appends the tags of a file.
fn push_tags(out: &mut Vec<char>, tags: &Vec<String>)
    ensures
        final(out)@ == old(out)@ + tags_text(views(tags@)),
{
    if tags.len() == 0 {
        assert(out@ =~= out@ + tags_text(views(tags@)));
        return;
    }
    let ghost o0 = out@;
    let mut parts: Vec<Vec<char>> = Vec::new();
    let mut i: usize = 0;
    let ghost tv = views(tags@).map_values(|t: Seq<char>| "["@ + t + "]"@);
    while i < tags.len()
        invariant
            i <= tags@.len(),
            tv == views(tags@).map_values(|t: Seq<char>| "["@ + t + "]"@),
            cviews(parts@) == tv.take(i as int),
        decreases tags@.len() - i,
    {
        let mut p = chars_of("[");
        let t = chars_of(tags[i].as_str());
        push_all(&mut p, t.as_slice());
        push_str(&mut p, "]");
        let ghost p0 = cviews(parts@);
        parts.push(p);
        assert(cviews(parts@) =~= p0.push("["@ + tags@[i as int]@ + "]"@));
        assert(tv.take(i + 1) =~= tv.take(i as int).push(tv[i as int]));
        i += 1;
    }
    assert(tv.take(i as int) =~= tv);
    push_str(out, " ");
    let sp = chars_of(" ");
    let j = join_exec(parts.as_slice(), parts.len(), sp.as_slice());
    assert(parts@.take(parts@.len() as int).map_values(|v: Vec<char>| v@) =~= tv);
    push_all(out, j.as_slice());
    assert(out@ =~= o0 + tags_text(views(tags@)));
}

/// Appends a listed API.
fn push_api(out: &mut Vec<char>, items: &Vec<Vec<char>>, more: usize)
    ensures
        final(out)@ == old(out)@ + api_text(cviews(items@), more as nat),
{
    let ghost o0 = out@;
    if items.len() == 0 {
        push_str(out, "(none)");
    } else {
        let sep = chars_of(", ");
        let j = join_exec(items.as_slice(), items.len(), sep.as_slice());
        assert(items@.take(items@.len() as int).map_values(|v: Vec<char>| v@) =~= cviews(items@));
        push_all(out, j.as_slice());
        if more > 0 {
            push_str(out, ", ... +");
            let d = decimal_of(more);
            push_all(out, d.as_slice());
            push_str(out, " more (use xray for full list)");
        }
    }
    assert(out@ =~= o0 + api_text(cviews(items@), more as nat));
}

/// A signature on one line (see `one_line`).
fn one_line_exec(f: &[char]) -> (r: Vec<char>)
    ensures
        r@ == one_line(f@),
{
    let ws = words_exec(f);
    let sp = chars_of(" ");
    let r = join_exec(ws.as_slice(), ws.len(), sp.as_slice());
    assert(ws@.take(ws@.len() as int).map_values(|v: Vec<char>| v@) =~= cviews(ws@));
    r
}

/// Appends the line of one file in the flat map.
#[verifier::spinoff_prover]
#[verifier::rlimit(40)]
fn push_flat_line(out: &mut Vec<char>, fr: &FileResult)
    ensures
        final(out)@ == old(out)@ + flat_line(*fr),
{
    let ghost o0 = out@;
    push_str(out, "- ");
    let p = chars_of(fr.path.as_str());
    push_all(out, p.as_slice());
    push_str(out, " (");
    let d = decimal_of(fr.lines);
    push_all(out, d.as_slice());
    if fr.parse_error {
        push_str(out, " lines) (parse error)\n");
        assert(out@ =~= o0 + flat_line(*fr));
        return;
    }
    push_str(out, " lines)");
    push_tags(out, &fr.tags);
    push_str(out, " - public_types: ");
    let (st, mt) = truncate_list(fr.public_types.as_slice(), TYPE_TRUNCATE_THRESHOLD, TYPE_TRUNCATE_SHOW);
    let stc = texts_of(st.as_slice());
    push_api(out, &stc, mt);
    push_str(out, " - public_functions: ");
    let (sf, mf) = truncate_list(fr.public_functions.as_slice(), FN_TRUNCATE_THRESHOLD, FN_TRUNCATE_SHOW);
    let mut fl: Vec<Vec<char>> = Vec::new();
    let ghost sfv = views(sf@);
    let mut i: usize = 0;
    while i < sf.len()
        invariant
            i <= sf@.len(),
            sfv == views(sf@),
            cviews(fl@) == sfv.map_values(|f: Seq<char>| one_line(f)).take(i as int),
        decreases sf@.len() - i,
    {
        let c = chars_of(sf[i].as_str());
        let o = one_line_exec(c.as_slice());
        let ghost f0 = cviews(fl@);
        fl.push(o);
        assert(cviews(fl@) =~= f0.push(one_line(sfv[i as int])));
        assert(sfv.map_values(|f: Seq<char>| one_line(f)).take(i + 1) =~= sfv.map_values(
            |f: Seq<char>| one_line(f),
        ).take(i as int).push(one_line(sfv[i as int])));
        i += 1;
    }
    assert(sfv.map_values(|f: Seq<char>| one_line(f)).take(i as int) =~= sfv.map_values(
        |f: Seq<char>| one_line(f),
    ));
    push_api(out, &fl, mf);
    push_str(out, "\n");
    assert(out@ =~= o0 + flat_line(*fr));
}

/// The flat map: per file, "- path (N lines) [tags] - public_types: ...
/// - public_functions: ...", long lists cut.
pub fn format_flat(results: &[FileResult]) -> (r: String)
    ensures
        r@ == flat_text(results@),
{
    let mut out: Vec<char> = Vec::new();
    let mut i: usize = 0;
    assert(out@ =~= flat_text(results@.take(0)));
    while i < results.len()
        invariant
            i <= results@.len(),
            out@ == flat_text(results@.take(i as int)),
        decreases results@.len() - i,
    {
        push_flat_line(&mut out, &results[i]);
        assert(results@.take(i + 1).drop_last() =~= results@.take(i as int));
        i += 1;
    }
    assert(results@.take(i as int) =~= results@);
    string_of(out.as_slice())
}

/// The last position of `c` among the first `n` characters of `p`.
pub open spec fn rpos(p: Seq<char>, c: char, n: int) -> Option<int>
    decreases n,
{
    if n <= 0 {
        None
    } else if p[n - 1] == c {
        Some(n - 1)
    } else {
        rpos(p, c, n - 1)
    }
}

/// The directory group of a path: up to and with its last `/`, or
/// "(root)/".
pub open spec fn group_dir(p: Seq<char>) -> Seq<char> {
    match rpos(p, '/', p.len() as int) {
        Some(i) => p.take(i + 1),
        None => "(root)/"@,
    }
}

/// The file name of a path: after its last `/`.
pub open spec fn base_name(p: Seq<char>) -> Seq<char> {
    match rpos(p, '/', p.len() as int) {
        Some(i) => p.skip(i + 1),
        None => p,
    }
}

/// The total line count of `rs`.
pub open spec fn sum_lines(rs: Seq<FileResult>) -> nat
    decreases rs.len(),
{
    if rs.len() == 0 {
        0
    } else {
        sum_lines(rs.drop_last()) + rs.last().lines as nat
    }
}

/// The names listed for a file in the grouped map: its type names, cut,
/// with a note of how many more; its function names, cut, with a note.
pub open spec fn grouped_names(fr: FileResult) -> Seq<Seq<char>> {
    let tn = views(fr.public_types@).map_values(|x: Seq<char>| name_only(x));
    let fnn = views(fr.public_functions@).map_values(|x: Seq<char>| name_only(x));
    let mt = left_out(tn.len(), TYPE_TRUNCATE_THRESHOLD as nat, TYPE_TRUNCATE_SHOW as nat);
    let mf = left_out(fnn.len(), FN_TRUNCATE_THRESHOLD as nat, FN_TRUNCATE_SHOW as nat);
    shown(tn, TYPE_TRUNCATE_THRESHOLD as nat, TYPE_TRUNCATE_SHOW as nat) + (if mt > 0 {
        seq!["... +"@ + decimal(mt) + " more types"@]
    } else {
        Seq::empty()
    }) + shown(fnn, FN_TRUNCATE_THRESHOLD as nat, FN_TRUNCATE_SHOW as nat) + (if mf > 0 {
        seq!["... +"@ + decimal(mf) + " more fns (use xray for full list)"@]
    } else {
        Seq::empty()
    })
}

/// The line of one file in the grouped map.
pub open spec fn grouped_line(fr: FileResult) -> Seq<char> {
    let names = grouped_names(fr);
    "  "@ + base_name(fr.path@) + " ("@ + decimal(fr.lines as nat) + " lines)"@ + tags_text(
        views(fr.tags@),
    ) + (if names.len() == 0 {
        Seq::empty()
    } else {
        " - "@ + join(names, ", "@)
    }) + "\n"@
}

/// The lines of the files `fs` in the grouped map.
pub open spec fn grouped_lines(fs: Seq<FileResult>) -> Seq<char>
    decreases fs.len(),
{
    if fs.len() == 0 {
        Seq::empty()
    } else {
        grouped_lines(fs.drop_last()) + grouped_line(fs.last())
    }
}

/// The end of the run of files from `i` on in directory `d`.
pub open spec fn run_end(rs: Seq<FileResult>, i: int, d: Seq<char>) -> int
    decreases rs.len() - i,
{
    if i < 0 || i >= rs.len() {
        if i < 0 {
            0
        } else {
            rs.len() as int
        }
    } else if group_dir(rs[i].path@) != d {
        i
    } else {
        run_end(rs, i + 1, d)
    }
}

pub proof fn lemma_run_end(rs: Seq<FileResult>, i: int, d: Seq<char>)
    requires
        0 <= i <= rs.len(),
    ensures
        i <= run_end(rs, i, d) <= rs.len(),
    decreases rs.len() - i,
{
    if i < rs.len() && group_dir(rs[i].path@) == d {
        lemma_run_end(rs, i + 1, d);
    }
}

/// The line count of every run of files in one directory fits in a
/// `usize`.
pub open spec fn groups_fit(rs: Seq<FileResult>) -> bool {
    forall|i: int, j: int|
        0 <= i < j <= rs.len() && (forall|k: int| i <= k < j ==> group_dir(#[trigger] rs[k].path@) == group_dir(rs[i].path@))
            ==> sum_lines(#[trigger] rs.subrange(i, j)) <= usize::MAX
}

/// The grouped map of `rs` from file `i` on: per run of files in one
/// directory, "dir (N files, M lines)" and a line per file.
pub open spec fn grouped_from(rs: Seq<FileResult>, i: int) -> Seq<char>
    decreases rs.len() - i,
{
    if i < 0 || i >= rs.len() {
        Seq::empty()
    } else {
        let d = group_dir(rs[i].path@);
        let e = run_end(rs, i + 1, d);
        proof {
            lemma_run_end(rs, i + 1, d);
        }
        let fs = rs.subrange(i, e);
        d + " ("@ + decimal(fs.len()) + " files, "@ + decimal(sum_lines(fs)) + " lines)\n"@
            + grouped_lines(fs) + grouped_from(rs, e)
    }
}

pub proof fn lemma_sum_append(a: Seq<FileResult>, b: Seq<FileResult>)
    ensures
        sum_lines(a + b) == sum_lines(a) + sum_lines(b),
    decreases b.len(),
{
    if b.len() == 0 {
        assert(a + b =~= a);
    } else {
        lemma_sum_append(a, b.drop_last());
        assert((a + b).drop_last() =~= a + b.drop_last());
    }
}

pub proof fn lemma_sum_subrange(rs: Seq<FileResult>, i: int, j: int)
    requires
        0 <= i <= j <= rs.len(),
    ensures
        sum_lines(rs.subrange(i, j)) <= sum_lines(rs),
{
    lemma_sum_append(rs.take(i), rs.subrange(i, j));
    lemma_sum_append(rs.take(i) + rs.subrange(i, j), rs.skip(j));
    assert(rs.take(i) + rs.subrange(i, j) + rs.skip(j) =~= rs);
}

/// The directory group of a path (see `group_dir`) and its file name.
fn dir_and_base(p: &String) -> (r: (Vec<char>, Vec<char>))
    ensures
        r.0@ == group_dir(p@),
        r.1@ == base_name(p@),
{
    let c = chars_of(p.as_str());
    let mut n: usize = c.len();
    while n > 0 && c[n - 1] != '/'
        invariant
            n <= c@.len(),
            rpos(c@, '/', c@.len() as int) == rpos(c@, '/', n as int),
        decreases n,
    {
        n -= 1;
    }
    if n == 0 {
        let d = chars_of("(root)/");
        let b = crate::text::copy_range(c.as_slice(), 0, c.len());
        assert(b@ =~= c@);
        (d, b)
    } else {
        let d = crate::text::copy_range(c.as_slice(), 0, n);
        let b = crate::text::copy_range(c.as_slice(), n, c.len());
        assert(d@ =~= c@.take(n as int));
        assert(b@ =~= c@.skip(n as int));
        (d, b)
    }
}

/// Appends the line of one file in the grouped map.
#[verifier::spinoff_prover]
#[verifier::rlimit(40)]
fn push_grouped_line(out: &mut Vec<char>, fr: &FileResult)
    ensures
        final(out)@ == old(out)@ + grouped_line(*fr),
{
    let ghost o0 = out@;
    let (_, base) = dir_and_base(&fr.path);
    push_str(out, "  ");
    push_all(out, base.as_slice());
    push_str(out, " (");
    let d = decimal_of(fr.lines);
    push_all(out, d.as_slice());
    push_str(out, " lines)");
    push_tags(out, &fr.tags);
    let tn = format_names_only(fr.public_types.as_slice());
    let fnn = format_names_only(fr.public_functions.as_slice());
    let mut names: Vec<String> = Vec::new();
    let (st, mt) = truncate_list(tn.as_slice(), TYPE_TRUNCATE_THRESHOLD, TYPE_TRUNCATE_SHOW);
    let mut i: usize = 0;
    while i < st.len()
        invariant
            i <= st@.len(),
            views(names@) == views(st@).take(i as int),
        decreases st@.len() - i,
    {
        let c = copy_string(&st[i]);
        let ghost n0 = views(names@);
        names.push(c);
        assert(views(names@) =~= n0.push(st@[i as int]@));
        assert(views(st@).take(i + 1) =~= views(st@).take(i as int).push(st@[i as int]@));
        i += 1;
    }
    assert(views(st@).take(i as int) =~= views(st@));
    let ghost tnv = views(fr.public_types@).map_values(|x: Seq<char>| name_only(x));
    assert(views(tn@) == tnv);
    let ghost n0 = views(names@);
    if mt > 0 {
        let mut m = chars_of("... +");
        let dd = decimal_of(mt);
        push_all(&mut m, dd.as_slice());
        push_str(&mut m, " more types");
        let ms = string_of(m.as_slice());
        names.push(ms);
        assert(views(names@) =~= n0.push("... +"@ + decimal(mt as nat) + " more types"@));
    }
    assert(views(names@) =~= shown(tnv, TYPE_TRUNCATE_THRESHOLD as nat, TYPE_TRUNCATE_SHOW as nat) + (if mt > 0 {
        seq!["... +"@ + decimal(mt as nat) + " more types"@]
    } else {
        Seq::<Seq<char>>::empty()
    }));
    let ghost names1 = views(names@);
    let (sf, mf) = truncate_list(fnn.as_slice(), FN_TRUNCATE_THRESHOLD, FN_TRUNCATE_SHOW);
    let mut i: usize = 0;
    while i < sf.len()
        invariant
            i <= sf@.len(),
            views(names@) == names1 + views(sf@).take(i as int),
        decreases sf@.len() - i,
    {
        let c = copy_string(&sf[i]);
        let ghost n0 = views(names@);
        names.push(c);
        assert(views(names@) =~= n0.push(sf@[i as int]@));
        assert(views(sf@).take(i + 1) =~= views(sf@).take(i as int).push(sf@[i as int]@));
        i += 1;
    }
    assert(views(sf@).take(i as int) =~= views(sf@));
    let ghost fnv = views(fr.public_functions@).map_values(|x: Seq<char>| name_only(x));
    assert(views(fnn@) == fnv);
    let ghost n2 = views(names@);
    if mf > 0 {
        let mut m = chars_of("... +");
        let dd = decimal_of(mf);
        push_all(&mut m, dd.as_slice());
        push_str(&mut m, " more fns (use xray for full list)");
        let ms = string_of(m.as_slice());
        names.push(ms);
        assert(views(names@) =~= n2.push("... +"@ + decimal(mf as nat) + " more fns (use xray for full list)"@));
    }
    assert(views(names@) =~= names1 + shown(fnv, FN_TRUNCATE_THRESHOLD as nat, FN_TRUNCATE_SHOW as nat) + (if mf > 0 {
        seq!["... +"@ + decimal(mf as nat) + " more fns (use xray for full list)"@]
    } else {
        Seq::<Seq<char>>::empty()
    }));
    assert(views(names@) =~= grouped_names(*fr));
    if names.len() > 0 {
        push_str(out, " - ");
        let nc = texts_of(names.as_slice());
        let sep = chars_of(", ");
        let j = join_exec(nc.as_slice(), nc.len(), sep.as_slice());
        assert(nc@.take(nc@.len() as int).map_values(|v: Vec<char>| v@) =~= views(names@));
        push_all(out, j.as_slice());
    }
    push_str(out, "\n");
    assert(out@ =~= o0 + grouped_line(*fr));
}

/// The grouped map: the files in runs by directory, each run under
/// "dir (N files, M lines)", each file with its bare public names.
#[verifier::spinoff_prover]
#[verifier::rlimit(50)]
pub fn format_grouped(results: &[FileResult]) -> (r: String)
    requires
        groups_fit(results@),
    ensures
        r@ == grouped_from(results@, 0),
{
    let ghost rs = results@;
    let mut out: Vec<char> = Vec::new();
    let mut i: usize = 0;
    assert(out@ + grouped_from(rs, 0) =~= grouped_from(rs, 0));
    while i < results.len()
        invariant
            rs == results@,
            groups_fit(rs),
            i <= rs.len(),
            out@ + grouped_from(rs, i as int) == grouped_from(rs, 0),
        decreases rs.len() - i,
    {
        let (d, _) = dir_and_base(&results[i].path);
        let mut body: Vec<char> = Vec::new();
        let mut total: usize = 0;
        let mut e: usize = i;
        proof {
            lemma_run_end(rs, i + 1, d@);
        }
        assert(rs.subrange(i as int, i as int) =~= Seq::<FileResult>::empty());
        loop
            invariant
                rs == results@,
                groups_fit(rs),
                i <= e <= rs.len(),
                i < rs.len(),
                forall|k: int| i <= k < e ==> group_dir(#[trigger] rs[k].path@) == d@,
                d@ == group_dir(rs[i as int].path@),
                e > i ==> run_end(rs, i + 1, d@) == run_end(rs, e as int, d@),
                e == i ==> run_end(rs, i + 1, d@) == run_end(rs, i + 1, d@),
                total == sum_lines(rs.subrange(i as int, e as int)),
                body@ == grouped_lines(rs.subrange(i as int, e as int)),
            ensures
                e == run_end(rs, i + 1, d@),
                e > i,
                total == sum_lines(rs.subrange(i as int, e as int)),
                body@ == grouped_lines(rs.subrange(i as int, e as int)),
            decreases rs.len() - e,
        {
            if e >= results.len() {
                break;
            }
            if e > i {
                let (d2, _) = dir_and_base(&results[e].path);
                if !crate::text::chars_eq(d2.as_slice(), d.as_slice()) {
                    break;
                }
            }
            proof {
                assert(group_dir(rs[e as int].path@) == d@);
                assert(forall|k: int| i <= k < e + 1 ==> group_dir(#[trigger] rs[k].path@) == group_dir(rs[i as int].path@));
                assert(sum_lines(rs.subrange(i as int, e + 1)) <= usize::MAX);
                lemma_sum_subrange(rs, i as int, e + 1);
                assert(rs.subrange(i as int, e + 1).drop_last() =~= rs.subrange(i as int, e as int));
            }
            total = total + results[e].lines;
            push_grouped_line(&mut body, &results[e]);
            e += 1;
        }
        push_all(&mut out, d.as_slice());
        push_str(&mut out, " (");
        let nf = decimal_of(e - i);
        push_all(&mut out, nf.as_slice());
        push_str(&mut out, " files, ");
        let nl = decimal_of(total);
        push_all(&mut out, nl.as_slice());
        push_str(&mut out, " lines)\n");
        push_all(&mut out, body.as_slice());
        i = e;
    }
    assert(out@ =~= out@ + grouped_from(rs, i as int));
    string_of(out.as_slice())
}

/// Where `x` goes in `s` from position `k` on: before the first file whose
/// path is above its path.
pub open spec fn ins_pos(s: Seq<FileResult>, x: FileResult, k: int) -> int
    decreases s.len() - k,
{
    if k < 0 {
        0
    } else if k >= s.len() {
        s.len() as int
    } else if str_lt(x.path@, s[k].path@) {
        k
    } else {
        ins_pos(s, x, k + 1)
    }
}

pub proof fn lemma_ins_pos(s: Seq<FileResult>, x: FileResult, k: int)
    requires
        0 <= k <= s.len(),
    ensures
        k <= ins_pos(s, x, k) <= s.len(),
    decreases s.len() - k,
{
    if k < s.len() && !str_lt(x.path@, s[k].path@) {
        lemma_ins_pos(s, x, k + 1);
    }
}

/// `rs` sorted by path, files with equal paths kept in their order (the
/// result of a stable sort, built by insertion).
pub open spec fn sorted_by_path(rs: Seq<FileResult>) -> Seq<FileResult>
    decreases rs.len(),
{
    if rs.len() == 0 {
        Seq::empty()
    } else {
        let s = sorted_by_path(rs.drop_last());
        s.insert(ins_pos(s, rs.last(), 0), rs.last())
    }
}

pub proof fn lemma_sorted_len_sum(rs: Seq<FileResult>)
    ensures
        sorted_by_path(rs).len() == rs.len(),
        sum_lines(sorted_by_path(rs)) == sum_lines(rs),
    decreases rs.len(),
{
    if rs.len() > 0 {
        let s = sorted_by_path(rs.drop_last());
        lemma_sorted_len_sum(rs.drop_last());
        let p = ins_pos(s, rs.last(), 0);
        lemma_ins_pos(s, rs.last(), 0);
        assert(s.insert(p, rs.last()) =~= s.take(p) + seq![rs.last()] + s.skip(p));
        lemma_sum_append(s.take(p), seq![rs.last()]);
        lemma_sum_append(s.take(p) + seq![rs.last()], s.skip(p));
        lemma_sum_append(s.take(p), s.skip(p));
        assert(s.take(p) + s.skip(p) =~= s);
        let one = seq![rs.last()];
        assert(one.drop_last() =~= Seq::<FileResult>::empty());
        assert(one.len() == 1 && one.last() == rs.last());
        assert(sum_lines(Seq::<FileResult>::empty()) == 0);
        assert(sum_lines(one) == sum_lines(one.drop_last()) + one.last().lines as nat);
        assert(sum_lines(one) == rs.last().lines as nat);
        assert(sum_lines(s.insert(p, rs.last())) == sum_lines(s) + rs.last().lines as nat);
    }
}

/// The files sorted by path, stably.
fn sort_by_path(results: Vec<FileResult>) -> (r: Vec<FileResult>)
    ensures
        r@ == sorted_by_path(results@),
{
    let ghost orig = results@;
    let mut rest = results;
    let mut sorted: Vec<FileResult> = Vec::new();
    let ghost mut i: int = 0;
    assert(orig.skip(0) =~= orig);
    assert(orig.take(0) =~= Seq::<FileResult>::empty());
    while rest.len() > 0
        invariant
            0 <= i <= orig.len(),
            rest@ == orig.skip(i),
            sorted@ == sorted_by_path(orig.take(i)),
        decreases rest@.len(),
    {
        let x = rest.remove(0);
        let xp = chars_of(x.path.as_str());
        let mut k: usize = 0;
        let mut placed = false;
        proof {
            lemma_ins_pos(sorted@, x, 0);
        }
        while !placed && k < sorted.len()
            invariant
                k <= sorted@.len(),
                xp@ == x.path@,
                placed ==> ins_pos(sorted@, x, 0) == k,
                !placed ==> ins_pos(sorted@, x, 0) == ins_pos(sorted@, x, k as int),
            decreases sorted@.len() - k, if placed { 0int } else { 1int },
        {
            let sp = chars_of(sorted[k].path.as_str());
            if crate::deps::sorted::compare_chars(xp.as_slice(), sp.as_slice()) < 0 {
                placed = true;
            } else {
                k += 1;
            }
        }
        proof {
            assert(orig.take(i + 1).drop_last() =~= orig.take(i));
            assert(orig.take(i + 1).last() == x);
            assert(orig.skip(i + 1) =~= orig.skip(i).remove(0));
            i = i + 1;
        }
        sorted.insert(k, x);
    }
    assert(orig.take(i) =~= orig);
    sorted
}

/// The paths of `s` never go down.
pub open spec fn path_sorted(s: Seq<FileResult>) -> bool {
    forall|i: int, j: int| 0 <= i < j < s.len() ==> !str_lt(#[trigger] s[j].path@, #[trigger] s[i].path@)
}

/// No two files of `s` share a path.
pub open spec fn distinct_paths(s: Seq<FileResult>) -> bool {
    forall|i: int, j: int| 0 <= i < j < s.len() ==> #[trigger] s[i].path@ != #[trigger] s[j].path@
}

/// Where `ins_pos` puts `x` in a sorted `t`: after each file whose path is
/// not above that of `x`, before each whose path is.
pub proof fn lemma_ins_pos_split(t: Seq<FileResult>, x: FileResult, k: int)
    requires
        0 <= k <= t.len(),
        path_sorted(t),
        forall|j: int| 0 <= j < k ==> !str_lt(x.path@, #[trigger] t[j].path@),
    ensures
        k <= ins_pos(t, x, k) <= t.len(),
        forall|j: int| 0 <= j < ins_pos(t, x, k) ==> !str_lt(x.path@, #[trigger] t[j].path@),
        forall|j: int| ins_pos(t, x, k) <= j < t.len() ==> str_lt(x.path@, #[trigger] t[j].path@),
    decreases t.len() - k,
{
    if k < t.len() {
        if str_lt(x.path@, t[k].path@) {
            assert forall|j: int| k <= j < t.len() implies str_lt(x.path@, #[trigger] t[j].path@) by {
                if j > k {
                    assert(!str_lt(t[j].path@, t[k].path@));
                    lemma_lt_total(t[k].path@, t[j].path@);
                    lemma_lt_transitive(x.path@, t[k].path@, t[j].path@);
                }
            }
        } else {
            lemma_ins_pos_split(t, x, k + 1);
        }
    }
}

/// `sorted_by_path` sorts: its result has its paths in order and holds the
/// same files.
pub proof fn lemma_sorted_by_path(rs: Seq<FileResult>)
    ensures
        path_sorted(sorted_by_path(rs)),
        sorted_by_path(rs).to_multiset() == rs.to_multiset(),
    decreases rs.len(),
{
    broadcast use vstd::seq_lib::group_to_multiset_ensures;

    if rs.len() > 0 {
        let t = sorted_by_path(rs.drop_last());
        let x = rs.last();
        lemma_sorted_by_path(rs.drop_last());
        lemma_ins_pos_split(t, x, 0);
        let p = ins_pos(t, x, 0);
        let u = t.insert(p, x);
        assert(u == sorted_by_path(rs));
        assert forall|i: int, j: int| 0 <= i < j < u.len() implies !str_lt(
            #[trigger] u[j].path@,
            #[trigger] u[i].path@,
        ) by {
            if j < p {
                assert(!str_lt(t[j].path@, t[i].path@));
            } else if j == p {
                assert(!str_lt(x.path@, t[i].path@));
            } else if i < p {
                assert(!str_lt(x.path@, t[i].path@));
                assert(str_lt(x.path@, t[j - 1].path@));
                lemma_lt_total(x.path@, t[i].path@);
                lemma_lt_transitive(t[i].path@, x.path@, t[j - 1].path@);
                lemma_lt_asymmetric(t[i].path@, t[j - 1].path@);
                if t[i].path@ == x.path@ {
                    lemma_lt_asymmetric(x.path@, t[j - 1].path@);
                }
            } else if i == p {
                assert(str_lt(x.path@, t[j - 1].path@));
                lemma_lt_asymmetric(x.path@, t[j - 1].path@);
            } else {
                assert(!str_lt(t[j - 1].path@, t[i - 1].path@));
            }
        }
        assert(rs =~= rs.drop_last().push(x));
    }
}

/// Sorting keeps the paths apart when they were apart.
pub proof fn lemma_sorted_distinct(rs: Seq<FileResult>)
    requires
        distinct_paths(rs),
    ensures
        distinct_paths(sorted_by_path(rs)),
    decreases rs.len(),
{
    broadcast use vstd::seq_lib::group_to_multiset_ensures;

    if rs.len() > 0 {
        let r0 = rs.drop_last();
        let x = rs.last();
        assert forall|i: int, j: int| 0 <= i < j < r0.len() implies #[trigger] r0[i].path@
            != #[trigger] r0[j].path@ by {
            assert(rs[i].path@ != rs[j].path@);
        }
        lemma_sorted_distinct(r0);
        lemma_sorted_by_path(r0);
        let t = sorted_by_path(r0);
        let p = ins_pos(t, x, 0);
        lemma_ins_pos(t, x, 0);
        assert forall|k: int| 0 <= k < t.len() implies #[trigger] t[k].path@ != x.path@ by {
            assert(t.contains(t[k]));
            assert(t.to_multiset().count(t[k]) > 0);
            assert(r0.to_multiset().count(t[k]) > 0);
            assert(r0.contains(t[k]));
            let m = choose|m: int| 0 <= m < r0.len() && r0[m] == t[k];
            assert(rs[m].path@ != rs[rs.len() - 1].path@);
        }
        let u = t.insert(p, x);
        assert forall|i: int, j: int| 0 <= i < j < u.len() implies #[trigger] u[i].path@
            != #[trigger] u[j].path@ by {
            if j < p {
                assert(t[i].path@ != t[j].path@);
            } else if j == p {
                assert(t[i].path@ != x.path@);
            } else if i < p {
                assert(t[i].path@ != t[j - 1].path@);
            } else if i == p {
                assert(t[j - 1].path@ != x.path@);
            } else {
                assert(t[i - 1].path@ != t[j - 1].path@);
            }
        }
    }
}

/// Two path-sorted lists of the same files, no two with one path, are the
/// same list.
pub proof fn lemma_path_sorted_unique(s: Seq<FileResult>, t: Seq<FileResult>)
    requires
        path_sorted(s),
        path_sorted(t),
        distinct_paths(s),
        s.to_multiset() == t.to_multiset(),
    ensures
        s == t,
    decreases s.len(),
{
    broadcast use vstd::seq_lib::group_to_multiset_ensures;

    assert(s.to_multiset().len() == s.len());
    assert(t.to_multiset().len() == t.len());
    if s.len() == 0 {
        assert(t.len() == 0);
        assert(s =~= t);
    } else {
        assert(s.contains(s[0]));
        assert(s.to_multiset().count(s[0]) > 0);
        assert(t.to_multiset().count(s[0]) > 0);
        assert(t.contains(s[0]));
        let j = choose|j: int| 0 <= j < t.len() && t[j] == s[0];
        assert(t.contains(t[0]));
        assert(t.to_multiset().count(t[0]) > 0);
        assert(s.to_multiset().count(t[0]) > 0);
        assert(s.contains(t[0]));
        let k = choose|k: int| 0 <= k < s.len() && s[k] == t[0];
        if k != 0 {
            assert(!str_lt(s[k].path@, s[0].path@));
            if j != 0 {
                assert(!str_lt(t[j].path@, t[0].path@));
            }
            lemma_lt_total(s[0].path@, s[k].path@);
            lemma_lt_asymmetric(s[0].path@, s[k].path@);
            assert(s[0].path@ != s[k].path@);
            assert(false);
        }
        assert(t[0] == s[0]);
        let s1 = s.remove(0);
        let t1 = t.remove(0);
        assert(s1.to_multiset() == t1.to_multiset());
        assert forall|a: int, b: int| 0 <= a < b < s1.len() implies !str_lt(
            #[trigger] s1[b].path@,
            #[trigger] s1[a].path@,
        ) by {
            assert(!str_lt(s[b + 1].path@, s[a + 1].path@));
        }
        assert forall|a: int, b: int| 0 <= a < b < t1.len() implies !str_lt(
            #[trigger] t1[b].path@,
            #[trigger] t1[a].path@,
        ) by {
            assert(!str_lt(t[b + 1].path@, t[a + 1].path@));
        }
        assert forall|a: int, b: int| 0 <= a < b < s1.len() implies #[trigger] s1[a].path@
            != #[trigger] s1[b].path@ by {
            assert(s[a + 1].path@ != s[b + 1].path@);
        }
        lemma_path_sorted_unique(s1, t1);
        assert(s =~= seq![s[0]] + s1);
        assert(t =~= seq![t[0]] + t1);
    }
}

/// The map of `rs` sorted: flat for up to 100 files, grouped beyond.
pub open spec fn map_text(rs: Seq<FileResult>) -> Seq<char> {
    let s = sorted_by_path(rs);
    if s.len() > GROUPING_THRESHOLD {
        grouped_from(s, 0)
    } else {
        flat_text(s)
    }
}

/// The repository map does not depend on the order in which the files were
/// found: the same files, no two with one path, listed in any order give
/// the same map.
pub proof fn law_map_ignores_file_order(a: Seq<FileResult>, b: Seq<FileResult>)
    requires
        a.to_multiset() == b.to_multiset(),
        distinct_paths(a),
    ensures
        map_text(a) == map_text(b),
{
    broadcast use vstd::seq_lib::group_to_multiset_ensures;

    lemma_sorted_by_path(a);
    lemma_sorted_by_path(b);
    lemma_sorted_distinct(a);
    lemma_path_sorted_unique(sorted_by_path(a), sorted_by_path(b));
}

/// The repository map of the files `results`: sorted by path, listed flat
/// for up to 100 files and grouped by directory beyond.
pub fn render_code_map(results: Vec<FileResult>) -> (r: String)
    requires
        sorted_by_path(results@).len() > GROUPING_THRESHOLD ==> groups_fit(sorted_by_path(results@)),
    ensures
        r@ == map_text(results@),
{
    let ghost rs = results@;
    let sorted = sort_by_path(results);
    proof {
        lemma_sorted_len_sum(rs);
    }
    if sorted.len() > GROUPING_THRESHOLD {
        format_grouped(sorted.as_slice())
    } else {
        format_flat(sorted.as_slice())
    }
}

/// `r` is what the map shows of the file `rel` with content `src` in
/// language `lang`: its path, its line count (line breaks plus one), and
/// its public API and tags when it parses (see `api_of` and `tags_of`); no
/// API and no tags, and a parse error, when it does not.
pub open spec fn reads_as(r: FileResult, rel: Seq<char>, src: Seq<u8>, lang: crate::index::Language) -> bool {
    &&& r.path@ == rel
    &&& r.lines == crate::index::count_byte(src, 10u8) + 1
    &&& r.parse_error <==> crate::index::syntax::parse_of(lang, src) is None
    &&& r.parse_error ==> r.public_types@.len() == 0 && r.public_functions@.len() == 0
        && r.tags@.len() == 0
    &&& !r.parse_error ==> views(r.tags@) == tags_of(
        rel,
        views(r.public_types@),
        views(r.public_functions@),
        src,
    ) && views(r.public_types@) == crate::index::api::api_of(
        crate::index::syntax::parse_of(lang, src)->0.children@,
        src,
        lang,
    ).0 && views(r.public_functions@) == crate::index::api::api_of(
        crate::index::syntax::parse_of(lang, src)->0.children@,
        src,
        lang,
    ).1
}

/// One file of the map from its content: its line count (line breaks plus
/// one), and its public API and tags when it parses (see
/// `extract_public_api` and `compute_tags`); no API and no tags, and a
/// parse error, when it does not.
pub fn file_result(rel: &str, source: &[u8], lang: crate::index::Language) -> (r: FileResult)
    requires
        source@.len() < usize::MAX,
    ensures
        reads_as(r, rel@, source@, lang),
{
    let mut n: usize = 0;
    let mut i: usize = 0;
    while i < source.len()
        invariant
            i <= source@.len(),
            source@.len() < usize::MAX,
            n <= i,
            n == crate::index::count_byte(source@.take(i as int), 10u8),
        decreases source@.len() - i,
    {
        assert(source@.take(i + 1).drop_last() =~= source@.take(i as int));
        if source[i] == 10u8 {
            n += 1;
        }
        i += 1;
    }
    assert(source@.take(i as int) =~= source@);
    let path = string_of(chars_of(rel).as_slice());
    match crate::index::api::extract_public_api(source, lang) {
        Ok((types, fns)) => {
            let tags = compute_tags(rel, types.as_slice(), fns.as_slice(), source);
            FileResult {
                path,
                lines: n + 1,
                public_types: types,
                public_functions: fns,
                tags,
                parse_error: false,
            }
        },
        Err(_) => FileResult {
            path,
            lines: n + 1,
            public_types: Vec::new(),
            public_functions: Vec::new(),
            tags: Vec::new(),
            parse_error: true,
        },
    }
}

/// What the map cache keeps of a file: the hash of its content and what
/// the map shows of it.
pub struct MapEntry {
    pub hash: String,
    pub lines: usize,
    pub public_types: Vec<String>,
    pub public_functions: Vec<String>,
    pub tags: Vec<String>,
}

/// The map line of the file `rel` taken from its cache entry `c`.
pub open spec fn from_entry(r: FileResult, rel: Seq<char>, c: MapEntry) -> bool {
    &&& r.path@ == rel
    &&& r.lines == c.lines
    &&& views(r.public_types@) == views(c.public_types@)
    &&& views(r.public_functions@) == views(c.public_functions@)
    &&& views(r.tags@) == views(c.tags@)
    &&& !r.parse_error
}

/// The cache entry `e` keeps the file `r` under the content hash `h`.
pub open spec fn keeps(e: MapEntry, h: Seq<char>, r: FileResult) -> bool {
    &&& e.hash@ == h
    &&& e.lines == r.lines
    &&& views(e.public_types@) == views(r.public_types@)
    &&& views(e.public_functions@) == views(r.public_functions@)
    &&& views(e.tags@) == views(r.tags@)
}

/// Copies a list of strings.
fn copy_strings(v: &Vec<String>) -> (r: Vec<String>)
    ensures
        views(r@) == views(v@),
{
    let mut r: Vec<String> = Vec::new();
    let mut k: usize = 0;
    while k < v.len()
        invariant
            k <= v@.len(),
            views(r@) == views(v@).take(k as int),
        decreases v@.len() - k,
    {
        let ghost r0 = views(r@);
        r.push(string_of(chars_of(v[k].as_str()).as_slice()));
        assert(views(r@) =~= r0.push(v@[k as int]@));
        assert(views(v@).take(k + 1) =~= views(v@).take(k as int).push(v@[k as int]@));
        k += 1;
    }
    assert(views(v@).take(k as int) =~= views(v@));
    r
}

/// One file of the map, with what the cache is to keep of it, from its
/// content `source` and its cache entry `cached`: when the entry holds the
/// hash of `source`, the file as the entry has it, kept again; else, in a
/// known language `lang`, the file as `file_result` reads it, kept unless
/// it failed to parse; in no known language, nothing.
pub fn map_file(
    rel: &str,
    source: &[u8],
    lang: Option<crate::index::Language>,
    cached: Option<&MapEntry>,
) -> (r: (Option<FileResult>, Option<MapEntry>))
    requires
        source@.len() < usize::MAX,
    ensures
        match cached {
            Some(c) if c.hash@ == blake3_hex(source@) => {
                &&& r.0 matches Some(f) && from_entry(f, rel@, *c)
                &&& r.1 matches Some(e) && keeps(e, blake3_hex(source@), r.0->0)
            },
            _ => match lang {
                None => r.0 is None && r.1 is None,
                Some(l) => {
                    &&& r.0 matches Some(f) && reads_as(f, rel@, source@, l)
                    &&& r.1 matches Some(e) ==> keeps(e, blake3_hex(source@), r.0->0)
                    &&& r.1 is None <==> r.0->0.parse_error
                },
            },
        },
{
    let hash = content_hash(source);
    if let Some(c) = cached {
        if crate::text::chars_eq(chars_of(c.hash.as_str()).as_slice(), chars_of(hash.as_str()).as_slice()) {
            let f = FileResult {
                path: string_of(chars_of(rel).as_slice()),
                lines: c.lines,
                public_types: copy_strings(&c.public_types),
                public_functions: copy_strings(&c.public_functions),
                tags: copy_strings(&c.tags),
                parse_error: false,
            };
            let e = MapEntry {
                hash,
                lines: c.lines,
                public_types: copy_strings(&c.public_types),
                public_functions: copy_strings(&c.public_functions),
                tags: copy_strings(&c.tags),
            };
            return (Some(f), Some(e));
        }
    }
    match lang {
        None => (None, None),
        Some(l) => {
            let f = file_result(rel, source, l);
            if f.parse_error {
                (Some(f), None)
            } else {
                let e = MapEntry {
                    hash,
                    lines: f.lines,
                    public_types: copy_strings(&f.public_types),
                    public_functions: copy_strings(&f.public_functions),
                    tags: copy_strings(&f.tags),
                };
                (Some(f), Some(e))
            }
        },
    }
}

/// The map cache gives back what it was given: a file kept under the hash
/// of its content and read back from that entry shows the same path, line
/// count, public API and tags, without a parse error.
pub proof fn law_map_cache_gives_back_the_file(
    f: FileResult,
    e: MapEntry,
    back: FileResult,
    rel: Seq<char>,
    src: Seq<u8>,
    lang: crate::index::Language,
)
    requires
        reads_as(f, rel, src, lang),
        !f.parse_error,
        keeps(e, blake3_hex(src), f),
        from_entry(back, rel, e),
    ensures
        back.path@ == f.path@,
        back.lines == f.lines,
        views(back.public_types@) == views(f.public_types@),
        views(back.public_functions@) == views(f.public_functions@),
        views(back.tags@) == views(f.tags@),
        back.parse_error == f.parse_error,
{
}

/// The version of the map cache format.
pub const MAP_CACHE_VERSION: u32 = 1;

/// The directory of the map cache, under the repository root.
pub const MAP_CACHE_DIR: &'static str = ".cache/taoki";

/// The file of the map cache.
pub const MAP_CACHE_FILE: &'static str = "radar.json";

/// Where the map cache of the repository at `root` is kept.
pub fn cache_path(root: &str) -> (r: String)
    ensures
        r@ == crate::paths::join_of(crate::paths::join_of(root@, MAP_CACHE_DIR@), MAP_CACHE_FILE@),
{
    let d = crate::paths::path_join(root, MAP_CACHE_DIR);
    crate::paths::path_join(d.as_str(), MAP_CACHE_FILE)
}

} // verus!
