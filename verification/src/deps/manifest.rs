//! Package manifests: the crate a `Cargo.toml` names and the module a
//! `go.mod` declares, and the maps from those names to the directories
//! that hold them.
use vstd::prelude::*;

use crate::deps::pathmap::{lookup, PathMap};
use crate::paths::{file_name, file_name_of, parent, parent_of, strip_path_prefix, strip_prefix_of};
use crate::text::{
    chars_eq, chars_of, has_prefix, lines, lines_of, replace_char, replace_char_exec, starts_with,
    strip_prefix, strip_prefix_exec, strip_suffix, strip_suffix_exec, string_of, trim, trim_start,
    trim_start_exec, trimmed,
};

verus! {

/// The name a `name = "..."` line gives, if it is one.
pub open spec fn name_value(t: Seq<char>) -> Option<Seq<char>> {
    match strip_prefix(t, "name"@) {
        Some(rest) => match strip_prefix(trim_start(rest), "="@) {
            Some(r2) => match strip_prefix(trim(r2), "\""@) {
                Some(r3) => strip_suffix(r3, "\""@),
                None => None,
            },
            None => None,
        },
        None => None,
    }
}

/// The package name of a manifest's lines `ls`, reading on in the
/// `[package]` section when `in_pkg`: the first `name = "..."` line of the
/// first `[package]` section, up to the next section header.
pub open spec fn package_name_from(ls: Seq<Seq<char>>, in_pkg: bool) -> Option<Seq<char>>
    decreases ls.len(),
{
    if ls.len() == 0 {
        None
    } else {
        let t = trim(ls[0]);
        if t == "[package]"@ {
            package_name_from(ls.drop_first(), true)
        } else if starts_with(t, "["@) {
            if in_pkg {
                None
            } else {
                package_name_from(ls.drop_first(), false)
            }
        } else if in_pkg {
            match name_value(t) {
                Some(n) => Some(n),
                None => package_name_from(ls.drop_first(), true),
            }
        } else {
            package_name_from(ls.drop_first(), false)
        }
    }
}

/// The crate name a `Cargo.toml` declares in its `[package]` section.
pub open spec fn package_name(content: Seq<char>) -> Option<Seq<char>> {
    package_name_from(lines(content), false)
}

/// The module a `go.mod` declares: the rest of its first `module ` line
/// that names one, trimmed.
pub open spec fn go_module_from(ls: Seq<Seq<char>>) -> Option<Seq<char>>
    decreases ls.len(),
{
    if ls.len() == 0 {
        None
    } else {
        match strip_prefix(trim(ls[0]), "module "@) {
            Some(rest) => if trim(rest).len() > 0 {
                Some(trim(rest))
            } else {
                go_module_from(ls.drop_first())
            },
            None => go_module_from(ls.drop_first()),
        }
    }
}

/// The module a `go.mod` declares.
pub open spec fn go_module_name(content: Seq<char>) -> Option<Seq<char>> {
    go_module_from(lines(content))
}

/// The name a `name = "..."` line gives, if it is one.
fn name_value_exec(t: &[char]) -> (r: Option<Vec<char>>)
    ensures
        match r {
            Some(n) => name_value(t@) == Some(n@),
            None => name_value(t@) is None,
        },
{
    let r1 = match strip_prefix_exec(t, chars_of("name").as_slice()) {
        Some(r) => r,
        None => {
            return None;
        },
    };
    let r1t = trim_start_exec(r1.as_slice());
    let r2 = match strip_prefix_exec(r1t.as_slice(), chars_of("=").as_slice()) {
        Some(r) => r,
        None => {
            return None;
        },
    };
    let r2t = trimmed(r2.as_slice());
    let r3 = match strip_prefix_exec(r2t.as_slice(), chars_of("\"").as_slice()) {
        Some(r) => r,
        None => {
            return None;
        },
    };
    strip_suffix_exec(r3.as_slice(), chars_of("\"").as_slice())
}

/// The crate name declared in the `[package]` section of a `Cargo.toml`.
pub fn extract_package_name(content: &str) -> (r: Option<String>)
    ensures
        match r {
            Some(n) => package_name(content@) == Some(n@),
            None => package_name(content@) is None,
        },
{
    let c = chars_of(content);
    let ls = lines_of(c.as_slice());
    let ghost all = lines(content@);
    let pkg = chars_of("[package]");
    let open = chars_of("[");
    let mut in_pkg = false;
    let mut i: usize = 0;
    assert(all.skip(0) =~= all);
    while i < ls.len()
        invariant
            i <= ls@.len(),
            ls@.len() == all.len(),
            all == lines(content@),
            forall|k: int| 0 <= k < ls@.len() ==> #[trigger] ls@[k]@ == all[k],
            pkg@ == "[package]"@,
            open@ == "["@,
            package_name(content@) == package_name_from(all.skip(i as int), in_pkg),
        decreases ls@.len() - i,
    {
        let ghost rest = all.skip(i as int);
        assert(rest[0] == all[i as int]);
        assert(rest.drop_first() =~= all.skip(i + 1));
        let t = trimmed(ls[i].as_slice());
        if chars_eq(t.as_slice(), pkg.as_slice()) {
            in_pkg = true;
        } else if has_prefix(t.as_slice(), open.as_slice()) {
            if in_pkg {
                return None;
            }
        } else if in_pkg {
            match name_value_exec(t.as_slice()) {
                Some(n) => {
                    return Some(string_of(n.as_slice()));
                },
                None => {},
            }
        }
        i += 1;
    }
    assert(all.skip(i as int).len() == 0);
    None
}

/// The module declared in a `go.mod`.
pub fn extract_go_module_name(content: &str) -> (r: Option<String>)
    ensures
        match r {
            Some(n) => go_module_name(content@) == Some(n@),
            None => go_module_name(content@) is None,
        },
{
    let c = chars_of(content);
    let ls = lines_of(c.as_slice());
    let ghost all = lines(content@);
    let module = chars_of("module ");
    let mut i: usize = 0;
    assert(all.skip(0) =~= all);
    while i < ls.len()
        invariant
            i <= ls@.len(),
            ls@.len() == all.len(),
            all == lines(content@),
            forall|k: int| 0 <= k < ls@.len() ==> #[trigger] ls@[k]@ == all[k],
            module@ == "module "@,
            go_module_name(content@) == go_module_from(all.skip(i as int)),
        decreases ls@.len() - i,
    {
        let ghost rest = all.skip(i as int);
        assert(rest[0] == all[i as int]);
        assert(rest.drop_first() =~= all.skip(i + 1));
        let t = trimmed(ls[i].as_slice());
        match strip_prefix_exec(t.as_slice(), module.as_slice()) {
            Some(r) => {
                let n = trimmed(r.as_slice());
                if n.len() > 0 {
                    return Some(string_of(n.as_slice()));
                }
            },
            None => {},
        }
        i += 1;
    }
    assert(all.skip(i as int).len() == 0);
    None
}

/// The directory of a manifest relative to the root: its parent (or `dflt`
/// when it has none), without the root when it lies under it.
pub open spec fn manifest_dir(root: Seq<char>, path: Seq<char>, dflt: Seq<char>) -> Seq<char> {
    let dir = match parent_of(path) {
        Some(d) => d,
        None => dflt,
    };
    match strip_prefix_of(dir, root) {
        Some(r) => r,
        None => dir,
    }
}

/// `after` is `before` with `k` set to `v` (`PathMap::insert`).
pub open spec fn inserted(
    before: Seq<(Seq<char>, Seq<char>)>,
    after: Seq<(Seq<char>, Seq<char>)>,
    k: Seq<char>,
    v: Seq<char>,
) -> bool {
    match lookup(before, k) {
        Some(_) => exists|i: int|
            0 <= i < before.len() && before[i].0 == k && after == before.update(i, (k, v)),
        None => after == before.push((k, v)),
    }
}

/// The file at `path` has the name `name`.
pub open spec fn named(path: Seq<char>, name: Seq<char>) -> bool {
    file_name_of(path) == Some(name)
}

/// Whether the file at `path` has the name `name` (`Cargo.toml`, `go.mod`).
pub fn is_named(path: &str, name: &str) -> (b: bool)
    ensures
        b == named(path@, name@),
{
    match file_name(path) {
        Some(n) => chars_eq(chars_of(n.as_str()).as_slice(), chars_of(name).as_slice()),
        None => false,
    }
}

/// The directory of a manifest relative to the root.
fn manifest_dir_exec(root: &str, path: &str, dflt: &str) -> (r: String)
    ensures
        r@ == manifest_dir(root@, path@, dflt@),
{
    let dir = match parent(path) {
        Some(d) => d,
        None => string_of(chars_of(dflt).as_slice()),
    };
    match strip_path_prefix(dir.as_str(), root) {
        Some(r) => r,
        None => dir,
    }
}

/// Adds the crate a `Cargo.toml` at `path` declares (with `-` written
/// `_`) to the crate map, mapped to its directory relative to `root`.
pub fn add_crate_manifest(map: &mut PathMap, root: &str, path: &str, content: &str)
    ensures
        match package_name(content@) {
            Some(n) => inserted(
                old(map)@,
                final(map)@,
                replace_char(n, '-', '_'),
                manifest_dir(root@, path@, ""@),
            ),
            None => final(map)@ == old(map)@,
        },
{
    match extract_package_name(content) {
        Some(n) => {
            let k = replace_char_exec(chars_of(n.as_str()).as_slice(), '-', '_');
            let v = manifest_dir_exec(root, path, "");
            map.insert(string_of(k.as_slice()), v);
        },
        None => {},
    }
}

/// Adds the module a `go.mod` at `path` declares to the module map, mapped
/// to its directory relative to `root`.
pub fn add_go_manifest(map: &mut PathMap, root: &str, path: &str, content: &str)
    ensures
        match go_module_name(content@) {
            Some(n) => inserted(old(map)@, final(map)@, n, manifest_dir(root@, path@, root@)),
            None => final(map)@ == old(map)@,
        },
{
    match extract_go_module_name(content) {
        Some(n) => {
            let v = manifest_dir_exec(root, path, root);
            map.insert(n, v);
        },
        None => {},
    }
}

} // verus!
