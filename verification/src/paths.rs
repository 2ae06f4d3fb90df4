//! Paths as text. The operations of `std::path` that the library uses are
//! named here: what each gives is a function of its arguments alone, and
//! `std::path` decides it; the library's own path logic is stated over
//! these names.
use vstd::prelude::*;

verus! {

/// What `Path::parent` gives for the path written `p`, as text.
pub uninterp spec fn parent_of(p: Seq<char>) -> Option<Seq<char>>;

/// What `Path::join` gives for `base` joined with `rest`, as text.
pub uninterp spec fn join_of(base: Seq<char>, rest: Seq<char>) -> Seq<char>;

/// What `Path::with_extension` gives for `p` with extension `ext`, as text.
pub uninterp spec fn with_extension_of(p: Seq<char>, ext: Seq<char>) -> Seq<char>;

/// The texts of what `Path::components` yields for `p` (`Component::as_os_str`):
/// `/` for the root, `.` and `..` for the current and parent directory, the
/// name for any other component.
pub uninterp spec fn components_of(p: Seq<char>) -> Seq<Seq<char>>;

/// What `Path::file_name` gives for `p`, as text.
pub uninterp spec fn file_name_of(p: Seq<char>) -> Option<Seq<char>>;

/// The position of the last `.` among the first `k` characters of `n`.
pub open spec fn last_dot(n: Seq<char>, k: int) -> Option<int>
    decreases k,
{
    if k <= 0 || k > n.len() {
        None
    } else if n[k - 1] == '.' {
        Some(k - 1)
    } else {
        last_dot(n, k - 1)
    }
}

/// What `Path::file_stem` gives for `p`, as its documentation states it:
/// none without a file name; the whole file name when it holds no `.`, or
/// only a leading one; else the part before its last `.`.
pub open spec fn file_stem_of(p: Seq<char>) -> Option<Seq<char>> {
    match file_name_of(p) {
        None => None,
        Some(n) => match last_dot(n, n.len() as int) {
            Some(i) => if i == 0 {
                Some(n)
            } else {
                Some(n.take(i))
            },
            None => Some(n),
        },
    }
}

/// What `Path::extension` gives for `p`, as its documentation states it:
/// none without a file name, or when the file name holds no `.` or only a
/// leading one; else the part after its last `.`.
pub open spec fn extension_of(p: Seq<char>) -> Option<Seq<char>> {
    match file_name_of(p) {
        None => None,
        Some(n) => match last_dot(n, n.len() as int) {
            Some(i) => if i == 0 {
                None
            } else {
                Some(n.skip(i + 1))
            },
            None => None,
        },
    }
}

/// Wraps `Path::parent`: the parent of `p`, named by `parent_of`.
#[verifier::external_body]
pub(crate) fn parent(p: &str) -> (r: Option<String>)
    ensures
        r matches Some(q) ==> parent_of(p@) == Some(q@),
        r is None ==> parent_of(p@) is None,
{
    std::path::Path::new(p).parent().map(|q| q.to_string_lossy().into_owned())
}

/// Wraps `Path::join`: `rest` joined onto `base`, named by `join_of`.
#[verifier::external_body]
pub(crate) fn path_join(base: &str, rest: &str) -> (r: String)
    ensures
        r@ == join_of(base@, rest@),
{
    std::path::Path::new(base).join(rest).to_string_lossy().into_owned()
}

/// Wraps `Path::with_extension`: `p` with its extension set to `ext`,
/// named by `with_extension_of`. It panics on an extension that holds a
/// path separator, so such an extension is not admitted.
#[verifier::external_body]
pub(crate) fn with_extension(p: &str, ext: &str) -> (r: String)
    requires
        !ext@.contains('/'),
        !ext@.contains('\\'),
    ensures
        r@ == with_extension_of(p@, ext@),
{
    std::path::Path::new(p).with_extension(ext).to_string_lossy().into_owned()
}

/// Wraps `Path::components`: the texts of the components of `p`, named by
/// `components_of`.
#[verifier::external_body]
pub(crate) fn components(p: &str) -> (r: Vec<String>)
    ensures
        r@.len() == components_of(p@).len(),
        forall|i: int| 0 <= i < r@.len() ==> #[trigger] r@[i]@ == components_of(p@)[i],
{
    std::path::Path::new(p).components().map(|c| c.as_os_str().to_string_lossy().into_owned()).collect()
}

/// Wraps `Path::file_name`, named by `file_name_of`.
#[verifier::external_body]
pub(crate) fn file_name(p: &str) -> (r: Option<String>)
    ensures
        r matches Some(q) ==> file_name_of(p@) == Some(q@),
        r is None ==> file_name_of(p@) is None,
{
    std::path::Path::new(p).file_name().map(|q| q.to_string_lossy().into_owned())
}

/// Wraps `Path::file_stem`: the stem of the file name, as `file_stem_of`
/// states it.
#[verifier::external_body]
pub(crate) fn file_stem(p: &str) -> (r: Option<String>)
    ensures
        r matches Some(q) ==> file_stem_of(p@) == Some(q@),
        r is None ==> file_stem_of(p@) is None,
{
    std::path::Path::new(p).file_stem().map(|q| q.to_string_lossy().into_owned())
}

/// Wraps `Path::extension`: the extension of the file name, as
/// `extension_of` states it.
#[verifier::external_body]
pub(crate) fn extension(p: &str) -> (r: Option<String>)
    ensures
        r matches Some(q) ==> extension_of(p@) == Some(q@),
        r is None ==> extension_of(p@) is None,
{
    std::path::Path::new(p).extension().map(|q| q.to_string_lossy().into_owned())
}

/// The text of an optional path piece, the empty text when there is none
/// (`.and_then(|s| s.to_str()).unwrap_or("")`).
pub open spec fn or_empty(o: Option<Seq<char>>) -> Seq<char> {
    match o {
        Some(s) => s,
        None => Seq::empty(),
    }
}

/// A path built by pushing components onto an empty `PathBuf`: the root
/// `/` starts over, a name goes after a separator unless the path is empty
/// or already ends in one.
pub open spec fn push_component(acc: Seq<char>, c: Seq<char>) -> Seq<char> {
    if c == seq!['/'] {
        seq!['/']
    } else if acc.len() == 0 {
        c
    } else if acc.last() == '/' {
        acc + c
    } else {
        acc + seq!['/'] + c
    }
}

/// The components kept by `normalize_path`: `..` removes the last kept
/// component, `.` is dropped, every other component is kept.
pub open spec fn normalized_components(cs: Seq<Seq<char>>) -> Seq<Seq<char>>
    decreases cs.len(),
{
    if cs.len() == 0 {
        Seq::empty()
    } else {
        let kept = normalized_components(cs.drop_last());
        let c = cs.last();
        if c == seq!['.', '.'] {
            if kept.len() == 0 {
                kept
            } else {
                kept.drop_last()
            }
        } else if c == seq!['.'] {
            kept
        } else {
            kept.push(c)
        }
    }
}

/// The path collected from components (`collect::<PathBuf>()`).
pub open spec fn collect_components(cs: Seq<Seq<char>>) -> Seq<char>
    decreases cs.len(),
{
    if cs.len() == 0 {
        Seq::empty()
    } else {
        push_component(collect_components(cs.drop_last()), cs.last())
    }
}

/// `normalize_path`: the path with `.` and `..` components resolved
/// lexically.
pub open spec fn normalized(p: Seq<char>) -> Seq<char> {
    collect_components(normalized_components(components_of(p)))
}

/// Resolves `.` and `..` components of `p` without touching the file
/// system.
pub fn normalize_path(p: &str) -> (r: String)
    ensures
        r@ == normalized(p@),
{
    let comps = components(p);
    let mut kept: Vec<Vec<char>> = Vec::new();
    let dotdot = vec!['.', '.'];
    let dot = vec!['.'];
    let ghost cs = components_of(p@);
    let mut i: usize = 0;
    while i < comps.len()
        invariant
            i <= comps.len(),
            comps@.len() == cs.len(),
            forall|k: int| 0 <= k < comps@.len() ==> #[trigger] comps@[k]@ == cs[k],
            dotdot@ == seq!['.', '.'],
            dot@ == seq!['.'],
            kept@.len() == normalized_components(cs.take(i as int)).len(),
            forall|k: int|
                0 <= k < kept@.len() ==> #[trigger] kept@[k]@ == normalized_components(
                    cs.take(i as int),
                )[k],
        decreases comps.len() - i,
    {
        let c = crate::text::chars_of(comps[i].as_str());
        assert(cs.take(i + 1).drop_last() =~= cs.take(i as int));
        assert(cs.take(i + 1).last() == cs[i as int]);
        if crate::text::chars_eq(c.as_slice(), dotdot.as_slice()) {
            if kept.len() > 0 {
                kept.pop();
            }
        } else if crate::text::chars_eq(c.as_slice(), dot.as_slice()) {
        } else {
            kept.push(c);
        }
        i += 1;
    }
    assert(cs.take(comps.len() as int) =~= cs);
    let ghost ks = normalized_components(cs);
    let mut out: Vec<char> = Vec::new();
    let slash = vec!['/'];
    let mut j: usize = 0;
    while j < kept.len()
        invariant
            j <= kept.len(),
            kept@.len() == ks.len(),
            forall|k: int| 0 <= k < kept@.len() ==> #[trigger] kept@[k]@ == ks[k],
            slash@ == seq!['/'],
            out@ == collect_components(ks.take(j as int)),
        decreases kept.len() - j,
    {
        assert(ks.take(j + 1).drop_last() =~= ks.take(j as int));
        let c = &kept[j];
        if crate::text::chars_eq(c.as_slice(), slash.as_slice()) {
            out = slash.clone();
        } else if out.len() == 0 {
            out = c.clone();
        } else if out[out.len() - 1] == '/' {
            crate::text::push_all(&mut out, c.as_slice());
        } else {
            out.push('/');
            crate::text::push_all(&mut out, c.as_slice());
        }
        j += 1;
    }
    assert(ks.take(kept.len() as int) =~= ks);
    crate::text::string_of(out.as_slice())
}

/// The text of an optional path piece, the empty text when there is none.
pub fn or_empty_string(o: Option<String>) -> (r: String)
    ensures
        r@ == or_empty(crate::text::opt_view(o)),
{
    match o {
        Some(s) => s,
        None => String::new(),
    }
}

/// What `Path::strip_prefix` gives for `p` without the leading components
/// `base`, as text.
pub uninterp spec fn strip_prefix_of(p: Seq<char>, base: Seq<char>) -> Option<Seq<char>>;

/// Wraps `Path::strip_prefix`: `p` relative to `base`, if `base` is a
/// prefix of its components, named by `strip_prefix_of`.
#[verifier::external_body]
pub(crate) fn strip_path_prefix(p: &str, base: &str) -> (r: Option<String>)
    ensures
        r matches Some(q) ==> strip_prefix_of(p@, base@) == Some(q@),
        r is None ==> strip_prefix_of(p@, base@) is None,
{
    std::path::Path::new(p).strip_prefix(base).ok().map(|q| q.to_string_lossy().into_owned())
}

} // verus!
