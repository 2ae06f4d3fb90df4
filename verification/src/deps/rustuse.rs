//! Rust `use` trees: a grouped `use a::{b, c::{d, e}}` expanded into the
//! paths it imports.
use vstd::prelude::*;

use crate::deps::sorted::cviews;
use crate::text::{
    chars_of, contains, copy_range, has_prefix, has_substring, push_all, push_str, starts_with,
    trim, trim_end, trim_start, trimmed,
};

verus! {

/// How many `{` are in `s`.
pub open spec fn opens(s: Seq<char>) -> nat
    decreases s.len(),
{
    if s.len() == 0 {
        0
    } else {
        opens(s.drop_last()) + if s.last() == '{' {
            1nat
        } else {
            0nat
        }
    }
}

pub proof fn lemma_opens_add(a: Seq<char>, b: Seq<char>)
    ensures
        opens(a + b) == opens(a) + opens(b),
    decreases b.len(),
{
    if b.len() == 0 {
        assert(a + b =~= a);
    } else {
        lemma_opens_add(a, b.drop_last());
        assert((a + b).drop_last() =~= a + b.drop_last());
    }
}

pub proof fn lemma_opens_subrange(s: Seq<char>, i: int, j: int)
    requires
        0 <= i <= j <= s.len(),
    ensures
        opens(s.subrange(i, j)) <= opens(s),
        i < j && s[i] == '{' ==> opens(s.subrange(i + 1, j)) + 1 <= opens(s),
{
    lemma_opens_add(s.take(i), s.subrange(i, j));
    lemma_opens_add(s.take(i) + s.subrange(i, j), s.skip(j));
    assert(s.take(i) + s.subrange(i, j) + s.skip(j) =~= s);
    if i < j && s[i] == '{' {
        lemma_opens_add(seq![s[i]], s.subrange(i + 1, j));
        assert(seq![s[i]] + s.subrange(i + 1, j) =~= s.subrange(i, j));
        let x = seq![s[i]];
        assert(x.drop_last() =~= Seq::<char>::empty());
        assert(opens(Seq::<char>::empty()) == 0);
        assert(x.last() == '{');
        assert(opens(x) == opens(x.drop_last()) + 1);
    }
}

pub proof fn lemma_opens_no_brace(s: Seq<char>)
    requires
        forall|i: int| 0 <= i < s.len() ==> s[i] != '{',
    ensures
        opens(s) == 0,
    decreases s.len(),
{
    if s.len() > 0 {
        lemma_opens_no_brace(s.drop_last());
    }
}

pub proof fn lemma_opens_trim_start(s: Seq<char>)
    ensures
        opens(trim_start(s)) <= opens(s),
    decreases s.len(),
{
    if s.len() > 0 && crate::text::is_ws(s[0]) {
        lemma_opens_trim_start(s.drop_first());
        lemma_opens_subrange(s, 1, s.len() as int);
        assert(s.subrange(1, s.len() as int) =~= s.drop_first());
    }
}

pub proof fn lemma_opens_trim_end(s: Seq<char>)
    ensures
        opens(trim_end(s)) <= opens(s),
    decreases s.len(),
{
    if s.len() > 0 && crate::text::is_ws(s.last()) {
        lemma_opens_trim_end(s.drop_last());
    }
}

pub proof fn lemma_opens_trim(s: Seq<char>)
    ensures
        opens(trim(s)) <= opens(s),
{
    lemma_opens_trim_start(s);
    lemma_opens_trim_end(trim_start(s));
}

/// `s` without any run of `p` at its start (`str::trim_start_matches`).
pub open spec fn trim_start_str(s: Seq<char>, p: Seq<char>) -> Seq<char>
    decreases s.len(),
{
    if p.len() > 0 && starts_with(s, p) {
        trim_start_str(s.skip(p.len() as int), p)
    } else {
        s
    }
}

/// `s` without any run of `p` at its end (`str::trim_end_matches`).
pub open spec fn trim_end_str(s: Seq<char>, p: Seq<char>) -> Seq<char>
    decreases s.len(),
{
    if p.len() > 0 && p.len() <= s.len() && s.skip(s.len() - p.len()) == p {
        trim_end_str(s.take(s.len() - p.len()), p)
    } else {
        s
    }
}

pub proof fn lemma_opens_trim_end_str(s: Seq<char>, p: Seq<char>)
    ensures
        opens(trim_end_str(s, p)) <= opens(s),
    decreases s.len(),
{
    if p.len() > 0 && p.len() <= s.len() && s.skip(s.len() - p.len()) == p {
        lemma_opens_trim_end_str(s.take(s.len() - p.len()), p);
        lemma_opens_subrange(s, 0, s.len() - p.len());
        assert(s.subrange(0, s.len() - p.len()) =~= s.take(s.len() - p.len()));
    }
}

/// The first top-level `{ ... }` of `s` scanned from `i` at nesting
/// `depth` (the group opened at `start`): its bounds, or `None` when a `}`
/// comes unopened or no group closes.
pub open spec fn braces_from(s: Seq<char>, i: int, depth: nat, start: int) -> Option<(int, int)>
    decreases s.len() - i,
{
    if i < 0 || i >= s.len() {
        None
    } else if s[i] == '{' {
        braces_from(
            s,
            i + 1,
            depth + 1,
            if depth == 0 {
                i
            } else {
                start
            },
        )
    } else if s[i] == '}' {
        if depth == 0 {
            None
        } else if depth == 1 {
            Some((start, i))
        } else {
            braces_from(s, i + 1, (depth - 1) as nat, start)
        }
    } else {
        braces_from(s, i + 1, depth, start)
    }
}

/// The bounds of the first top-level brace group of `s`.
pub open spec fn top_braces(s: Seq<char>) -> Option<(int, int)> {
    braces_from(s, 0, 0, 0)
}

pub proof fn lemma_braces_from(s: Seq<char>, i: int, depth: nat, start: int)
    requires
        0 <= i,
        depth > 0 ==> 0 <= start < i && s[start] == '{',
    ensures
        braces_from(s, i, depth, start) matches Some((a, b)) ==> 0 <= a < b < s.len() && s[a]
            == '{',
    decreases s.len() - i,
{
    if 0 <= i < s.len() {
        if s[i] == '{' {
            lemma_braces_from(
                s,
                i + 1,
                depth + 1,
                if depth == 0 {
                    i
                } else {
                    start
                },
            );
        } else if s[i] == '}' {
            if depth > 1 {
                lemma_braces_from(s, i + 1, (depth - 1) as nat, start);
            }
        } else {
            lemma_braces_from(s, i + 1, depth, start);
        }
    }
}

/// The items of `s` separated by its top-level commas, scanned from `i`
/// at nesting `depth` with the current item starting at `start`.
pub open spec fn items_from(s: Seq<char>, i: int, depth: nat, start: int) -> Seq<Seq<char>>
    decreases s.len() - i,
{
    if i < 0 || i >= s.len() {
        seq![s.subrange(start, s.len() as int)]
    } else if s[i] == '{' {
        items_from(s, i + 1, depth + 1, start)
    } else if s[i] == '}' {
        items_from(
            s,
            i + 1,
            if depth == 0 {
                0
            } else {
                (depth - 1) as nat
            },
            start,
        )
    } else if s[i] == ',' && depth == 0 {
        seq![s.subrange(start, i)] + items_from(s, i + 1, depth, i + 1)
    } else {
        items_from(s, i + 1, depth, start)
    }
}

/// The items of a brace group's inside, split at top-level commas.
pub open spec fn top_items(s: Seq<char>) -> Seq<Seq<char>> {
    items_from(s, 0, 0, 0)
}

pub proof fn lemma_items_from(s: Seq<char>, i: int, depth: nat, start: int)
    requires
        0 <= start <= i <= s.len(),
    ensures
        forall|k: int|
            0 <= k < items_from(s, i, depth, start).len() ==> opens(
                #[trigger] items_from(s, i, depth, start)[k],
            ) <= opens(s),
    decreases s.len() - i,
{
    if i >= s.len() {
        lemma_opens_subrange(s, start, s.len() as int);
        assert(items_from(s, i, depth, start)[0] == s.subrange(start, s.len() as int));
    } else if s[i] == '{' {
        lemma_items_from(s, i + 1, depth + 1, start);
        assert(items_from(s, i, depth, start) == items_from(s, i + 1, depth + 1, start));
    } else if s[i] == '}' {
        assert(items_from(s, i, depth, start) == items_from(
            s,
            i + 1,
            if depth == 0 {
                0
            } else {
                (depth - 1) as nat
            },
            start,
        ));
        lemma_items_from(
            s,
            i + 1,
            if depth == 0 {
                0
            } else {
                (depth - 1) as nat
            },
            start,
        );
    } else if s[i] == ',' && depth == 0 {
        lemma_items_from(s, i + 1, depth, i + 1);
        lemma_opens_subrange(s, start, i);
        let rest = items_from(s, i + 1, depth, i + 1);
        assert forall|k: int| 0 <= k < items_from(s, i, depth, start).len() implies opens(
            #[trigger] items_from(s, i, depth, start)[k],
        ) <= opens(s) by {
            if k > 0 {
                assert(items_from(s, i, depth, start)[k] == rest[k - 1]);
            } else {
                assert(items_from(s, i, depth, start)[k] == s.subrange(start, i));
            }
        }
    } else {
        lemma_items_from(s, i + 1, depth, start);
        assert(items_from(s, i, depth, start) == items_from(s, i + 1, depth, start));
    }
}

/// A path joined to a prefix with `::`, or either alone when the other
/// is empty.
pub open spec fn join_prefix(prefix: Seq<char>, item: Seq<char>) -> Seq<char> {
    if prefix.len() == 0 {
        trim(item)
    } else if item.len() == 0 {
        prefix
    } else {
        prefix + "::"@ + item
    }
}

/// The prefix and the items of a grouped `use` path, if it has a group.
pub open spec fn use_parts(path: Seq<char>) -> Option<(Seq<char>, Seq<Seq<char>>)> {
    let p = trim(path);
    match top_braces(p) {
        None => None,
        Some((st, en)) => Some(
            (
                trim_end_str(trim(p.take(st)), "::"@),
                top_items(trim(p.subrange(st + 1, en))),
            ),
        ),
    }
}

/// The prefix of a grouped `use` path.
pub open spec fn use_prefix(path: Seq<char>) -> Seq<char> {
    match use_parts(path) {
        Some((prefix, _)) => prefix,
        None => Seq::empty(),
    }
}

/// The items of the group of a `use` path.
pub open spec fn use_items(path: Seq<char>) -> Seq<Seq<char>> {
    match use_parts(path) {
        Some((_, its)) => its,
        None => Seq::empty(),
    }
}

pub proof fn lemma_nested_smaller(path: Seq<char>, k: int)
    requires
        use_parts(path) is Some,
        0 <= k < use_items(path).len(),
        contains(trim(use_items(path)[k]), "{"@),
    ensures
        opens(join_prefix(use_prefix(path), trim(use_items(path)[k]))) < opens(path),
{
    let p = trim(path);
    let (st, en) = top_braces(p)->0;
    lemma_braces_from(p, 0, 0, 0);
    assert(0 <= st < en < p.len() && p[st] == '{');
    lemma_opens_trim(path);
    let prefix = trim_end_str(trim(p.take(st)), "::"@);
    let inner = trim(p.subrange(st + 1, en));
    assert(use_prefix(path) == prefix);
    assert(use_items(path) == top_items(inner));
    lemma_opens_trim_end_str(trim(p.take(st)), "::"@);
    lemma_opens_trim(p.take(st));
    let g = p.subrange(st, en);
    lemma_opens_subrange(g, 0, g.len() as int);
    assert(g.subrange(0, g.len() as int) =~= g);
    assert(g.subrange(1, g.len() as int) =~= p.subrange(st + 1, en));
    assert(opens(p.subrange(st + 1, en)) + 1 <= opens(g));
    lemma_opens_add(p.take(st), g);
    lemma_opens_subrange(p, 0, en);
    assert(p.take(st) + g =~= p.subrange(0, en));
    assert(opens(p.take(st)) + opens(g) <= opens(p));
    lemma_opens_trim(p.subrange(st + 1, en));
    lemma_items_from(inner, 0, 0, 0);
    let raw = top_items(inner)[k];
    assert(opens(raw) <= opens(inner));
    let item = trim(raw);
    lemma_opens_trim(raw);
    reveal_strlit("{");
    reveal_strlit("::");
    let w = choose|w: int| crate::text::occurs_at(item, "{"@, w);
    assert(item.len() > 0) by {
        assert(crate::text::occurs_at(item, "{"@, w));
    }
    assert(opens(prefix) + opens(item) < opens(path));
    if prefix.len() == 0 {
        lemma_opens_trim(item);
    } else {
        lemma_opens_add(prefix, "::"@);
        lemma_opens_add(prefix + "::"@, item);
        lemma_opens_no_brace("::"@);
    }
}

/// The paths a `use` path imports: the path itself when it has no brace
/// group, else one or more per item of its first group, each joined to
/// the prefix before the group (`self` gives the prefix; nested groups are
/// expanded in turn).
pub open spec fn expand_use(path: Seq<char>) -> Seq<Seq<char>>
    decreases opens(path), 1int, 0int,
{
    match use_parts(path) {
        None => seq![trim(path)],
        Some((prefix, its)) => expand_items(path, its.len() as int),
    }
}

/// The paths the first `n` items of the group of `path` import.
pub open spec fn expand_items(path: Seq<char>, n: int) -> Seq<Seq<char>>
    decreases opens(path), 0int, n,
{
    match use_parts(path) {
        None => Seq::empty(),
        Some((prefix, its)) => if n <= 0 || n > its.len() {
            Seq::empty()
        } else {
            let item = trim(its[n - 1]);
            expand_items(path, n - 1) + if item.len() == 0 {
                Seq::<Seq<char>>::empty()
            } else if item == "self"@ {
                if prefix.len() > 0 {
                    seq![prefix]
                } else {
                    Seq::empty()
                }
            } else if starts_with(item, "self::"@) {
                let c = join_prefix(prefix, trim_start_str(item, "self::"@));
                if c.len() > 0 {
                    seq![c]
                } else {
                    Seq::empty()
                }
            } else if contains(item, "{"@) {
                proof {
                    lemma_nested_smaller(path, n - 1);
                }
                expand_use(join_prefix(prefix, item))
            } else {
                let c = join_prefix(prefix, item);
                if c.len() > 0 {
                    seq![c]
                } else {
                    Seq::empty()
                }
            }
        },
    }
}

/// The bounds of the first top-level brace group of `s` (see
/// `top_braces`).
pub fn find_top_level_braces(s: &[char]) -> (r: Option<(usize, usize)>)
    ensures
        match r {
            Some((a, b)) => top_braces(s@) == Some((a as int, b as int)),
            None => top_braces(s@) is None,
        },
{
    let mut depth: usize = 0;
    let mut start: usize = 0;
    let mut i: usize = 0;
    while i < s.len()
        invariant
            i <= s@.len(),
            depth <= i,
            start <= i,
            top_braces(s@) == braces_from(s@, i as int, depth as nat, start as int),
        decreases s@.len() - i,
    {
        if s[i] == '{' {
            if depth == 0 {
                start = i;
            }
            depth += 1;
        } else if s[i] == '}' {
            if depth == 0 {
                return None;
            }
            if depth == 1 {
                return Some((start, i));
            }
            depth -= 1;
        }
        i += 1;
    }
    None
}

/// The items of `s` separated by its top-level commas (see `top_items`).
pub fn split_top_level_items(s: &[char]) -> (r: Vec<Vec<char>>)
    ensures
        cviews(r@) == top_items(s@),
{
    let mut r: Vec<Vec<char>> = Vec::new();
    let mut depth: usize = 0;
    let mut start: usize = 0;
    let mut i: usize = 0;
    assert(cviews(r@) + items_from(s@, 0, 0, 0) =~= top_items(s@));
    while i < s.len()
        invariant
            i <= s@.len(),
            depth <= i,
            start <= i,
            cviews(r@) + items_from(s@, i as int, depth as nat, start as int) == top_items(s@),
        decreases s@.len() - i,
    {
        if s[i] == '{' {
            depth += 1;
        } else if s[i] == '}' {
            if depth > 0 {
                depth -= 1;
            }
        } else if s[i] == ',' && depth == 0 {
            let item = copy_range(s, start, i);
            let ghost r0 = cviews(r@);
            r.push(item);
            assert(cviews(r@) =~= r0.push(item@));
            assert(r0.push(item@) + items_from(s@, i + 1, depth as nat, i + 1) =~= r0 + (seq![
                s@.subrange(start as int, i as int),
            ] + items_from(s@, i + 1, depth as nat, i + 1)));
            start = i + 1;
        }
        i += 1;
    }
    let last = copy_range(s, start, s.len());
    let ghost r0 = cviews(r@);
    r.push(last);
    assert(cviews(r@) =~= r0.push(last@));
    assert(cviews(r@) =~= r0 + items_from(s@, i as int, depth as nat, start as int));
    r
}

/// A path joined to a prefix (see `join_prefix`).
pub fn join_prefix_exec(prefix: &[char], item: &[char]) -> (r: Vec<char>)
    ensures
        r@ == join_prefix(prefix@, item@),
{
    if prefix.len() == 0 {
        trimmed(item)
    } else if item.len() == 0 {
        copy_range(prefix, 0, prefix.len())
    } else {
        let mut r = copy_range(prefix, 0, prefix.len());
        push_str(&mut r, "::");
        push_all(&mut r, item);
        r
    }
}

/// `trim_start_str`.
fn trim_start_str_exec(s: &[char], p: &[char]) -> (r: Vec<char>)
    ensures
        r@ == trim_start_str(s@, p@),
{
    let mut a: usize = 0;
    assert(s@.skip(0) =~= s@);
    while p.len() > 0 && a <= s.len() && has_prefix_at(s, p, a)
        invariant
            a <= s@.len(),
            trim_start_str(s@, p@) == trim_start_str(s@.skip(a as int), p@),
        decreases s@.len() - a,
    {
        assert(s@.skip(a as int).skip(p@.len() as int) =~= s@.skip(a + p@.len()));
        a = a + p.len();
    }
    let r = copy_range(s, a, s.len());
    assert(r@ =~= s@.skip(a as int));
    r
}

/// Whether `s[a..]` starts with `p`.
fn has_prefix_at(s: &[char], p: &[char], a: usize) -> (b: bool)
    requires
        a <= s@.len(),
    ensures
        b == starts_with(s@.skip(a as int), p@),
        b ==> a + p@.len() <= s@.len(),
{
    let t = copy_range(s, a, s.len());
    assert(t@ =~= s@.skip(a as int));
    has_prefix(t.as_slice(), p)
}

/// `trim_end_str`.
fn trim_end_str_exec(s: &[char], p: &[char]) -> (r: Vec<char>)
    ensures
        r@ == trim_end_str(s@, p@),
{
    let mut b: usize = s.len();
    assert(s@.take(b as int) =~= s@);
    loop
        invariant
            b <= s@.len(),
            trim_end_str(s@, p@) == trim_end_str(s@.take(b as int), p@),
        ensures
            b <= s@.len(),
            trim_end_str(s@, p@) == s@.take(b as int),
        decreases b,
    {
        if p.len() == 0 || p.len() > b {
            break;
        }
        let tail = copy_range(s, b - p.len(), b);
        let ghost t = s@.take(b as int);
        assert(tail@ =~= t.skip(t.len() - p@.len()));
        if !crate::text::chars_eq(tail.as_slice(), p) {
            break;
        }
        assert(t.take(t.len() - p@.len()) =~= s@.take(b - p@.len()));
        b = b - p.len();
    }
    let r = copy_range(s, 0, b);
    assert(r@ =~= s@.take(b as int));
    r
}

/// The prefix and the items of a grouped `use` path (see `use_parts`).
fn use_parts_exec(path: &[char]) -> (r: Option<(Vec<char>, Vec<Vec<char>>)>)
    ensures
        match r {
            Some((p, its)) => use_parts(path@) == Some((p@, cviews(its@))),
            None => use_parts(path@) is None,
        },
{
    let p = trimmed(path);
    match find_top_level_braces(p.as_slice()) {
        None => None,
        Some((st, en)) => {
            proof {
                lemma_braces_from(p@, 0, 0, 0);
            }
            let head = copy_range(p.as_slice(), 0, st);
            assert(head@ =~= p@.take(st as int));
            let th = trimmed(head.as_slice());
            let sep = chars_of("::");
            let prefix = trim_end_str_exec(th.as_slice(), sep.as_slice());
            let body = copy_range(p.as_slice(), st + 1, en);
            let inner = trimmed(body.as_slice());
            let its = split_top_level_items(inner.as_slice());
            Some((prefix, its))
        },
    }
}

/// The paths a `use` path imports, as texts (see `expand_use`).
fn expand_chars(path: &[char]) -> (r: Vec<Vec<char>>)
    ensures
        cviews(r@) == expand_use(path@),
    decreases opens(path@),
{
    match use_parts_exec(path) {
        None => {
            let mut r: Vec<Vec<char>> = Vec::new();
            r.push(trimmed(path));
            assert(cviews(r@) =~= expand_use(path@));
            r
        },
        Some((prefix, its)) => {
            let mut out: Vec<Vec<char>> = Vec::new();
            let mut k: usize = 0;
            let selfw = chars_of("self");
            let selfp = chars_of("self::");
            let brace = chars_of("{");
            assert(cviews(out@) =~= expand_items(path@, 0));
            while k < its.len()
                invariant
                    use_parts(path@) == Some((prefix@, cviews(its@))),
                    selfw@ == "self"@,
                    selfp@ == "self::"@,
                    brace@ == "{"@,
                    k <= its@.len(),
                    cviews(out@) == expand_items(path@, k as int),
                decreases its@.len() - k,
            {
                let item = trimmed(its[k].as_slice());
                assert(item@ == trim(cviews(its@)[k as int]));
                let ghost o0 = cviews(out@);
                if item.len() == 0 {
                } else if crate::text::chars_eq(item.as_slice(), selfw.as_slice()) {
                    if prefix.len() > 0 {
                        let pc = copy_range(prefix.as_slice(), 0, prefix.len());
                        assert(pc@ =~= prefix@);
                        out.push(pc);
                        assert(cviews(out@) =~= o0.push(prefix@));
                    }
                } else if has_prefix(item.as_slice(), selfp.as_slice()) {
                    let rest = trim_start_str_exec(item.as_slice(), selfp.as_slice());
                    let c = join_prefix_exec(prefix.as_slice(), rest.as_slice());
                    if c.len() > 0 {
                        out.push(c);
                        assert(cviews(out@) =~= o0.push(c@));
                    }
                } else if has_substring(item.as_slice(), brace.as_slice()) {
                    let nested = join_prefix_exec(prefix.as_slice(), item.as_slice());
                    proof {
                        lemma_nested_smaller(path@, k as int);
                    }
                    let sub = expand_chars(nested.as_slice());
                    let mut j: usize = 0;
                    while j < sub.len()
                        invariant
                            j <= sub@.len(),
                            cviews(out@) == o0 + cviews(sub@).take(j as int),
                        decreases sub@.len() - j,
                    {
                        let ghost o1 = cviews(out@);
                        let sc = copy_range(sub[j].as_slice(), 0, sub[j].len());
                        assert(sc@ =~= sub@[j as int]@);
                        out.push(sc);
                        assert(cviews(out@) =~= o1.push(sub@[j as int]@));
                        assert(cviews(sub@).take(j + 1) =~= cviews(sub@).take(j as int).push(sub@[j as int]@));
                        j += 1;
                    }
                    assert(cviews(sub@).take(j as int) =~= cviews(sub@));
                } else {
                    let c = join_prefix_exec(prefix.as_slice(), item.as_slice());
                    if c.len() > 0 {
                        out.push(c);
                        assert(cviews(out@) =~= o0.push(c@));
                    }
                }
                k += 1;
                assert(cviews(out@) =~= expand_items(path@, k as int));
            }
            out
        },
    }
}

/// The paths a Rust `use` path imports: a grouped path expanded per item
/// of its first group, nested groups in turn, `self` standing for the
/// prefix.
pub fn expand_rust_use(path: &str) -> (r: Vec<String>)
    ensures
        crate::text::views(r@) == expand_use(path@),
{
    let c = chars_of(path);
    let e = expand_chars(c.as_slice());
    let mut r: Vec<String> = Vec::new();
    let mut k: usize = 0;
    while k < e.len()
        invariant
            k <= e@.len(),
            crate::text::views(r@) == cviews(e@).take(k as int),
        decreases e@.len() - k,
    {
        let ghost c0 = crate::text::views(r@);
        r.push(crate::text::string_of(e[k].as_slice()));
        assert(crate::text::views(r@) =~= c0.push(e@[k as int]@));
        assert(cviews(e@).take(k + 1) =~= cviews(e@).take(k as int).push(e@[k as int]@));
        k += 1;
    }
    assert(cviews(e@).take(k as int) =~= cviews(e@));
    r
}

} // verus!
