//! Which files a walk of a repository keeps: files of a supported language,
//! narrowed by glob patterns when any are given.
use vstd::prelude::*;

use crate::codemap::CodeMapError;
use crate::index::{language_of_extension, Language};
use crate::paths::{extension, extension_of, or_empty, or_empty_string};
use crate::text::{chars_of, string_of, views};

verus! {

#[verifier::external_type_specification]
#[verifier::external_body]
pub struct ExGlobSet(globset::GlobSet);

/// Whether `Glob::new` accepts the pattern.
pub uninterp spec fn glob_parses(pattern: Seq<char>) -> bool;

/// Whether the glob `pattern` matches the path `path`.
pub uninterp spec fn glob_matches(pattern: Seq<char>, path: Seq<char>) -> bool;

/// Whether `GlobSetBuilder::build` succeeds on the globs of `patterns`.
pub uninterp spec fn glob_set_builds(patterns: Seq<Seq<char>>) -> bool;

/// The patterns a glob set was built from, in order.
pub uninterp spec fn glob_set_patterns(s: globset::GlobSet) -> Seq<Seq<char>>;

/// Some pattern of `ps` matches `path`.
pub open spec fn any_glob_matches(ps: Seq<Seq<char>>, path: Seq<char>) -> bool {
    exists|i: int| 0 <= i < ps.len() && #[trigger] glob_matches(ps[i], path)
}

/// Wraps `Glob::new`: whether the pattern parses, named by `glob_parses`.
#[verifier::external_body]
fn glob_ok(pattern: &str) -> (r: bool)
    ensures
        r == glob_parses(pattern@),
{
    globset::Glob::new(pattern).is_ok()
}

/// Wraps `GlobSetBuilder::add` and `GlobSetBuilder::build` over the globs
/// of `patterns`: the set that holds them in order, or `None` where
/// building fails, named by `glob_set_builds`.
#[verifier::external_body]
fn build_glob_set(patterns: &[String]) -> (r: Option<globset::GlobSet>)
    requires
        forall|i: int| 0 <= i < patterns@.len() ==> glob_parses(#[trigger] patterns@[i]@),
    ensures
        r is Some <==> glob_set_builds(views(patterns@)),
        r matches Some(s) ==> glob_set_patterns(s) == views(patterns@),
{
    let mut builder = globset::GlobSetBuilder::new();
    for p in patterns {
        match globset::Glob::new(p) {
            Ok(g) => {
                builder.add(g);
            },
            Err(_) => return None,
        }
    }
    builder.build().ok()
}

/// Wraps `GlobSet::is_match`: whether some glob of the set matches `path`.
#[verifier::external_body]
fn glob_set_match(s: &globset::GlobSet, path: &str) -> (r: bool)
    ensures
        r == (exists|i: int| 0 <= i < glob_set_patterns(*s).len() && #[trigger] glob_matches(glob_set_patterns(*s)[i], path@)),
{
    s.is_match(path)
}

/// The globs that narrow a walk: none, or the set built from them.
pub struct GlobFilter {
    pub set: Option<globset::GlobSet>,
}

/// The first pattern of `ps` from `i` on that does not parse.
pub open spec fn first_bad(ps: Seq<Seq<char>>, i: int) -> Option<int>
    decreases ps.len() - i,
{
    if i < 0 || i >= ps.len() {
        None
    } else if !glob_parses(ps[i]) {
        Some(i)
    } else {
        first_bad(ps, i + 1)
    }
}

/// What `first_bad` finds is a pattern at or after `i` that does not parse,
/// with every one before it from `i` on parsing; when it finds none, all
/// of them from `i` on parse.
pub proof fn lemma_first_bad(ps: Seq<Seq<char>>, i: int)
    requires
        0 <= i <= ps.len(),
    ensures
        first_bad(ps, i) matches Some(k) ==> i <= k < ps.len() && !glob_parses(ps[k]),
        first_bad(ps, i) is None ==> forall|k: int| i <= k < ps.len() ==> glob_parses(#[trigger] ps[k]),
    decreases ps.len() - i,
{
    if i < ps.len() && glob_parses(ps[i]) {
        lemma_first_bad(ps, i + 1);
    }
}

/// The filter of the globs `globs`: no filter without globs; else the
/// first glob that does not parse is refused, and a set that does not
/// build is refused as `globset`.
pub fn glob_filter(globs: &[String]) -> (r: Result<GlobFilter, CodeMapError>)
    ensures
        globs@.len() == 0 ==> (r matches Ok(f) && f.set is None),
        globs@.len() > 0 ==> match first_bad(views(globs@), 0) {
            Some(i) => (r matches Err(CodeMapError::InvalidGlob(g)) && g@ == globs@[i]@),
            None => if glob_set_builds(views(globs@)) {
                (r matches Ok(f) && f.set matches Some(s) && glob_set_patterns(s) == views(globs@))
            } else {
                (r matches Err(CodeMapError::InvalidGlob(g)) && g@ == "globset"@)
            },
        },
{
    if globs.len() == 0 {
        return Ok(GlobFilter { set: None });
    }
    let ghost ps = views(globs@);
    let mut i: usize = 0;
    while i < globs.len()
        invariant
            i <= globs@.len(),
            ps == views(globs@),
            first_bad(ps, 0) == first_bad(ps, i as int),
            forall|k: int| 0 <= k < i ==> glob_parses(#[trigger] ps[k]),
        decreases globs@.len() - i,
    {
        if !glob_ok(globs[i].as_str()) {
            return Err(CodeMapError::InvalidGlob(string_of(chars_of(globs[i].as_str()).as_slice())));
        }
        i += 1;
    }
    assert forall|k: int| 0 <= k < globs@.len() implies glob_parses(#[trigger] globs@[k]@) by {
        assert(ps[k] == globs@[k]@);
    }
    match build_glob_set(globs) {
        Some(s) => Ok(GlobFilter { set: Some(s) }),
        None => Err(CodeMapError::InvalidGlob(string_of(chars_of("globset").as_slice()))),
    }
}

/// The walk keeps the file at `rel` under `filter`: its extension is that
/// of a supported language, and some glob matches it when there are any.
pub open spec fn kept(set: Option<globset::GlobSet>, rel: Seq<char>) -> bool {
    &&& language_of_extension(or_empty(extension_of(rel))) is Some
    &&& match set {
        None => true,
        Some(s) => any_glob_matches(glob_set_patterns(s), rel),
    }
}

/// Whether a walk under `filter` keeps the file at `rel`, its path relative
/// to the root.
pub fn keeps_file(filter: &GlobFilter, rel: &str) -> (r: bool)
    ensures
        r == kept(filter.set, rel@),
{
    let ext = or_empty_string(extension(rel));
    if Language::from_extension(ext.as_str()).is_none() {
        return false;
    }
    match &filter.set {
        None => true,
        Some(s) => glob_set_match(s, rel),
    }
}

} // verus!
