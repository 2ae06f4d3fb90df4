//! The benchmark over real repositories: checking the list of
//! repositories, and putting the results table into the README.
use vstd::prelude::*;

use crate::deps::sorted::{lemma_lt_asymmetric, lemma_lt_irreflexive, lemma_lt_total, lemma_lt_transitive, str_lt};
use crate::text::{chars_eq, chars_of, decimal, decimal_of, find_from, push_all, push_str, string_of};

verus! {

/// The marker after which the results table goes.
pub const BENCH_START: &'static str = "<!-- BENCH:START -->";

/// The marker before which the results table ends.
pub const BENCH_END: &'static str = "<!-- BENCH:END -->";

/// One repository of the benchmark.
pub struct RepoEntry {
    pub name: String,
    pub url: String,
    pub sha: String,
    pub lang: String,
}

/// What indexing one repository gave: file counts, skeleton counts, byte
/// totals, and how often each error message came up.
pub struct ProjectResult {
    pub name: String,
    pub lang: String,
    pub total_files: usize,
    pub parsed_ok: usize,
    pub parse_errors: usize,
    pub skipped: usize,
    pub empty_skeletons: usize,
    pub substantial_files: usize,
    pub total_source_bytes: usize,
    pub total_skeleton_bytes: usize,
    pub errors: Vec<(String, usize)>,
}

/// The last entry before `i` named `name`.
pub open spec fn last_seen(repos: Seq<RepoEntry>, name: Seq<char>, i: int) -> Option<int>
    decreases i,
{
    if i <= 0 {
        None
    } else if repos[i - 1].name@ == name {
        Some(i - 1)
    } else {
        last_seen(repos, name, i - 1)
    }
}

/// The problems of entry `i`: a missing name, a missing url, a name seen
/// before (at the last entry that had it).
pub open spec fn entry_errors(repos: Seq<RepoEntry>, i: int) -> Seq<Seq<char>> {
    let r = repos[i];
    let d = decimal(i as nat);
    (if r.name@.len() == 0 {
        seq!["entry "@ + d + ": missing name"@]
    } else {
        Seq::empty()
    }) + (if r.url@.len() == 0 {
        seq!["entry "@ + d + " ("@ + r.name@ + "): missing url"@]
    } else {
        Seq::empty()
    }) + match last_seen(repos, r.name@, i) {
        Some(p) => seq![
            "entry "@ + d + " ("@ + r.name@ + "): duplicate name (first seen at entry "@ + decimal(
                p as nat,
            ) + ")"@,
        ],
        None => Seq::empty(),
    }
}

/// The problems of the first `n` entries, in order.
pub open spec fn repo_errors(repos: Seq<RepoEntry>, n: int) -> Seq<Seq<char>>
    decreases n,
{
    if n <= 0 {
        Seq::empty()
    } else {
        repo_errors(repos, n - 1) + entry_errors(repos, n - 1)
    }
}

/// The problems of the repository list: per entry in order, a missing
/// name, a missing url, and a repeated name.
pub fn validate_repos(repos: &[RepoEntry]) -> (r: Vec<String>)
    ensures
        crate::text::views(r@) == repo_errors(repos@, repos@.len() as int),
{
    let mut errors: Vec<String> = Vec::new();
    let mut i: usize = 0;
    while i < repos.len()
        invariant
            i <= repos@.len(),
            crate::text::views(errors@) == repo_errors(repos@, i as int),
        decreases repos@.len() - i,
    {
        let r = &repos[i];
        let ghost e0 = crate::text::views(errors@);
        let d = decimal_of(i);
        let name = chars_of(r.name.as_str());
        if name.len() == 0 {
            let mut m = chars_of("entry ");
            push_all(&mut m, d.as_slice());
            push_str(&mut m, ": missing name");
            errors.push(string_of(m.as_slice()));
        }
        let ghost e1 = crate::text::views(errors@);
        if chars_of(r.url.as_str()).len() == 0 {
            let mut m = chars_of("entry ");
            push_all(&mut m, d.as_slice());
            push_str(&mut m, " (");
            push_all(&mut m, name.as_slice());
            push_str(&mut m, "): missing url");
            errors.push(string_of(m.as_slice()));
        }
        let ghost e2 = crate::text::views(errors@);
        let mut j: usize = i;
        let mut prev: Option<usize> = None;
        while j > 0 && prev.is_none()
            invariant
                j <= i < repos@.len(),
                name@ == repos@[i as int].name@,
                prev is None ==> last_seen(repos@, name@, i as int) == last_seen(repos@, name@, j as int),
                prev matches Some(p) ==> last_seen(repos@, name@, i as int) == Some(p as int),
            decreases j, if prev is None { 1int } else { 0int },
        {
            let c = chars_of(repos[j - 1].name.as_str());
            if crate::text::chars_eq(c.as_slice(), name.as_slice()) {
                prev = Some(j - 1);
            } else {
                j -= 1;
            }
        }
        match prev {
            Some(p) => {
                let mut m = chars_of("entry ");
                push_all(&mut m, d.as_slice());
                push_str(&mut m, " (");
                push_all(&mut m, name.as_slice());
                push_str(&mut m, "): duplicate name (first seen at entry ");
                let pd = decimal_of(p);
                push_all(&mut m, pd.as_slice());
                push_str(&mut m, ")");
                errors.push(string_of(m.as_slice()));
            },
            None => {},
        }
        assert(crate::text::views(errors@) =~= e0 + entry_errors(repos@, i as int));
        i += 1;
    }
    errors
}

/// The README text with the table put between the markers: everything up
/// to and with the first start marker, a line break, the table, and
/// everything from the first end marker on.
pub open spec fn injected(content: Seq<char>, table: Seq<char>) -> Result<Seq<char>, Seq<char>> {
    match crate::text::find_at(content, BENCH_START@, 0) {
        None => Err(BENCH_START@ + " marker not found"@),
        Some(s) => match crate::text::find_at(content, BENCH_END@, 0) {
            None => Err(BENCH_END@ + " marker not found"@),
            Some(e) => Ok(content.take(s + BENCH_START@.len()) + "\n"@ + table + content.skip(e)),
        },
    }
}

/// Puts the table between the benchmark markers of the README text, or
/// says which marker is missing.
pub fn inject_content(content: &str, table: &str) -> (r: Result<String, String>)
    ensures
        match r {
            Ok(t) => injected(content@, table@) == Ok::<Seq<char>, Seq<char>>(t@),
            Err(e) => injected(content@, table@) == Err::<Seq<char>, Seq<char>>(e@),
        },
{
    let c = chars_of(content);
    let sm = chars_of(BENCH_START);
    let em = chars_of(BENCH_END);
    let s = match find_from(c.as_slice(), sm.as_slice(), 0) {
        Some(s) => s,
        None => {
            let mut m = chars_of(BENCH_START);
            push_str(&mut m, " marker not found");
            return Err(string_of(m.as_slice()));
        },
    };
    let e = match find_from(c.as_slice(), em.as_slice(), 0) {
        Some(e) => e,
        None => {
            let mut m = chars_of(BENCH_END);
            push_str(&mut m, " marker not found");
            return Err(string_of(m.as_slice()));
        },
    };
    assert(crate::text::occurs_at(c@, sm@, s as int));
    assert(crate::text::occurs_at(c@, em@, e as int));
    let n = sm.len();
    let cl = c.len();
    assert(s + n <= cl);
    let mut out = crate::text::copy_range(c.as_slice(), 0, s + n);
    push_str(&mut out, "\n");
    push_str(&mut out, table);
    let tail = crate::text::copy_range(c.as_slice(), e, c.len());
    push_all(&mut out, tail.as_slice());
    assert(out@ =~= c@.take(s + sm@.len()) + "\n"@ + table@ + c@.skip(e as int));
    Ok(string_of(out.as_slice()))
}

// ---- the error summary ----

/// How many error lines the summary shows.
pub const TOP_ERRORS: usize = 10;

/// An error message with its count, as text and number.
pub open spec fn count_view(p: (String, usize)) -> (Seq<char>, nat) {
    (p.0@, p.1 as nat)
}

/// The (message, count) pairs of a list, as texts and numbers.
pub open spec fn counts_view(v: Seq<(String, usize)>) -> Seq<(Seq<char>, nat)> {
    v.map_values(|p: (String, usize)| count_view(p))
}

/// The (message, count) pairs of a list of character vectors.
pub open spec fn cpairs_view(v: Seq<(Vec<char>, usize)>) -> Seq<(Seq<char>, nat)> {
    v.map_values(|p: (Vec<char>, usize)| (p.0@, p.1 as nat))
}

/// The error counts of all results, in order.
pub open spec fn error_pairs(rs: Seq<ProjectResult>) -> Seq<(Seq<char>, nat)>
    decreases rs.len(),
{
    if rs.len() == 0 {
        Seq::empty()
    } else {
        error_pairs(rs.drop_last()) + counts_view(rs.last().errors@)
    }
}

/// The total count of message `m` among the pairs `ps`.
pub open spec fn total_of(ps: Seq<(Seq<char>, nat)>, m: Seq<char>) -> nat
    decreases ps.len(),
{
    if ps.len() == 0 {
        0
    } else {
        total_of(ps.drop_last(), m) + if ps.last().0 == m {
            ps.last().1
        } else {
            0
        }
    }
}

/// The message `m` occurs among the pairs `ps`.
pub open spec fn has_msg(ps: Seq<(Seq<char>, nat)>, m: Seq<char>) -> bool {
    exists|j: int| 0 <= j < ps.len() && #[trigger] ps[j].0 == m
}

/// `a` comes before `b` in the summary: a higher count, or the same count
/// and a message earlier in the order of `String`.
pub open spec fn ranks_before(a: (Seq<char>, nat), b: (Seq<char>, nat)) -> bool {
    a.1 > b.1 || (a.1 == b.1 && str_lt(a.0, b.0))
}

/// `s` lists each message of `ps` once with its total count, most
/// frequent first and ties in message order.
pub open spec fn is_ranking(s: Seq<(Seq<char>, nat)>, ps: Seq<(Seq<char>, nat)>) -> bool {
    &&& forall|i: int| 0 <= i < s.len() ==> #[trigger] s[i].1 == total_of(ps, s[i].0) && has_msg(ps, s[i].0)
    &&& forall|j: int| 0 <= j < ps.len() ==> #[trigger] has_msg(s, ps[j].0)
    &&& forall|i: int, k: int| 0 <= i < k < s.len() ==> ranks_before(#[trigger] s[i], #[trigger] s[k])
}

/// The lines of the summary entries `s`: `  {count}x {message}`.
pub open spec fn summary_lines_of(s: Seq<(Seq<char>, nat)>) -> Seq<char>
    decreases s.len(),
{
    if s.len() == 0 {
        Seq::empty()
    } else {
        summary_lines_of(s.drop_last()) + "  "@ + decimal(s.last().1) + "x "@ + s.last().0 + "\n"@
    }
}

/// The summary of the ranked errors `s`: nothing without errors, else a
/// heading and the first ten.
pub open spec fn error_summary(s: Seq<(Seq<char>, nat)>) -> Seq<char> {
    if s.len() == 0 {
        Seq::empty()
    } else {
        "\nTop errors:\n"@ + summary_lines_of(s.take(if s.len() > TOP_ERRORS { TOP_ERRORS as int } else { s.len() as int }))
    }
}

/// The error counts of all results, flattened.
fn flatten_errors(results: &[ProjectResult]) -> (r: Vec<(Vec<char>, usize)>)
    ensures
        cpairs_view(r@) == error_pairs(results@),
{
    let mut out: Vec<(Vec<char>, usize)> = Vec::new();
    let mut i: usize = 0;
    assert(cpairs_view(out@) =~= error_pairs(results@.take(0)));
    while i < results.len()
        invariant
            i <= results@.len(),
            cpairs_view(out@) == error_pairs(results@.take(i as int)),
        decreases results@.len() - i,
    {
        let es = &results[i].errors;
        let ghost o0 = cpairs_view(out@);
        let mut j: usize = 0;
        while j < es.len()
            invariant
                j <= es@.len(),
                cpairs_view(out@) == o0 + counts_view(es@).take(j as int),
            decreases es@.len() - j,
        {
            let m = chars_of(es[j].0.as_str());
            let ghost before = cpairs_view(out@);
            out.push((m, es[j].1));
            assert(cpairs_view(out@) =~= before.push((es@[j as int].0@, es@[j as int].1 as nat)));
            assert(counts_view(es@).take(j + 1) =~= counts_view(es@).take(j as int).push(
                count_view(es@[j as int]),
            ));
            j += 1;
        }
        assert(counts_view(es@).take(j as int) =~= counts_view(es@));
        assert(results@.take(i + 1).drop_last() =~= results@.take(i as int));
        i += 1;
    }
    assert(results@.take(i as int) =~= results@);
    out
}

/// The messages of `s` are pairwise distinct.
pub open spec fn distinct_msgs(s: Seq<(Seq<char>, nat)>) -> bool {
    forall|i: int, j: int| 0 <= i < j < s.len() ==> #[trigger] s[i].0 != #[trigger] s[j].0
}

/// One more pair adds its count to the total of its message.
pub proof fn lemma_total_push(ps: Seq<(Seq<char>, nat)>, x: (Seq<char>, nat), m: Seq<char>)
    ensures
        total_of(ps.push(x), m) == total_of(ps, m) + if x.0 == m {
            x.1
        } else {
            0
        },
{
    assert(ps.push(x).drop_last() =~= ps);
}

/// The total of a message over a prefix is at most its total.
pub proof fn lemma_total_prefix(ps: Seq<(Seq<char>, nat)>, k: int, m: Seq<char>)
    requires
        0 <= k <= ps.len(),
    ensures
        total_of(ps.take(k), m) <= total_of(ps, m),
    decreases ps.len() - k,
{
    if k < ps.len() {
        lemma_total_push(ps.take(k), ps[k], m);
        assert(ps.take(k + 1) =~= ps.take(k).push(ps[k]));
        lemma_total_prefix(ps, k + 1, m);
    } else {
        assert(ps.take(k) =~= ps);
    }
}

/// The messages of the pairs `ps` once each, in order of first
/// appearance, with their totals.
fn aggregate(ps: &Vec<(Vec<char>, usize)>) -> (r: Vec<(Vec<char>, usize)>)
    requires
        forall|m: Seq<char>| #[trigger] total_of(cpairs_view(ps@), m) <= usize::MAX,
    ensures
        distinct_msgs(cpairs_view(r@)),
        forall|i: int|
            0 <= i < r@.len() ==> #[trigger] cpairs_view(r@)[i].1 == total_of(
                cpairs_view(ps@),
                cpairs_view(r@)[i].0,
            ) && has_msg(cpairs_view(ps@), cpairs_view(r@)[i].0),
        forall|j: int| 0 <= j < ps@.len() ==> #[trigger] has_msg(cpairs_view(r@), cpairs_view(ps@)[j].0),
{
    let ghost pv = cpairs_view(ps@);
    let mut agg: Vec<(Vec<char>, usize)> = Vec::new();
    let mut k: usize = 0;
    while k < ps.len()
        invariant
            k <= ps@.len(),
            pv == cpairs_view(ps@),
            forall|m: Seq<char>| #[trigger] total_of(pv, m) <= usize::MAX,
            distinct_msgs(cpairs_view(agg@)),
            forall|i: int|
                0 <= i < agg@.len() ==> #[trigger] cpairs_view(agg@)[i].1 == total_of(
                    pv.take(k as int),
                    cpairs_view(agg@)[i].0,
                ) && has_msg(pv.take(k as int), cpairs_view(agg@)[i].0),
            forall|j: int| 0 <= j < k ==> #[trigger] has_msg(cpairs_view(agg@), pv[j].0),
            forall|m: Seq<char>|
                !has_msg(cpairs_view(agg@), m) ==> #[trigger] total_of(pv.take(k as int), m) == 0,
        decreases ps@.len() - k,
    {
        let ghost a0 = cpairs_view(agg@);
        let ghost x = pv[k as int];
        let ghost pk = pv.take(k as int);
        assert(pv.take(k + 1) =~= pk.push(x));
        assert forall|m: Seq<char>| #[trigger] total_of(pv.take(k + 1), m) == total_of(pk, m) + if x.0 == m {
            x.1
        } else {
            0
        } by {
            lemma_total_push(pk, x, m);
        }
        let m = &ps[k].0;
        let c = ps[k].1;
        let mut i: usize = 0;
        let mut found = false;
        while i < agg.len() && !found
            invariant
                i <= agg@.len(),
                a0 == cpairs_view(agg@),
                found ==> i < agg@.len() && a0[i as int].0 == m@,
                !found ==> forall|l: int| 0 <= l < i ==> a0[l].0 != m@,
            decreases agg@.len() - i, if found { 0int } else { 1int },
        {
            if chars_eq(agg[i].0.as_slice(), m.as_slice()) {
                found = true;
            } else {
                i += 1;
            }
        }
        if found {
            proof {
                lemma_total_prefix(pv, k + 1, m@);
            }
            assert(a0[i as int].1 == total_of(pk, a0[i as int].0));
            assert(x == (m@, c as nat));
            assert(total_of(pv.take(k + 1), m@) == total_of(pk, m@) + c);
            assert(total_of(pv, m@) <= usize::MAX);
            assert(agg@[i as int].1 == a0[i as int].1);
            let cnt = agg[i].1 + c;
            let name = crate::text::copy_range(agg[i].0.as_slice(), 0, agg[i].0.len());
            assert(name@ == m@);
            let ghost old_agg = agg@;
            agg.set(i, (name, cnt));
            assert(agg@ == old_agg.update(i as int, (name, cnt)));
            let ghost a1 = cpairs_view(agg@);
            assert(a1 =~= a0.update(i as int, (m@, cnt as nat)));
            assert forall|l: int| 0 <= l < a1.len() implies #[trigger] a1[l].1 == total_of(
                pv.take(k + 1),
                a1[l].0,
            ) && has_msg(pv.take(k + 1), a1[l].0) by {
                assert(a0[l].1 == total_of(pk, a0[l].0));
                assert(has_msg(pk, a0[l].0));
                let w = choose|j: int| 0 <= j < pk.len() && #[trigger] pk[j].0 == a0[l].0;
                assert(pv.take(k + 1)[w] == pk[w]);
                if l == i {
                } else {
                    assert(a0[l].0 != a0[i as int].0);
                }
            }
            assert forall|j: int| 0 <= j < k + 1 implies #[trigger] has_msg(a1, pv[j].0) by {
                if j < k {
                    assert(has_msg(a0, pv[j].0));
                    let w = choose|l: int| 0 <= l < a0.len() && #[trigger] a0[l].0 == pv[j].0;
                    assert(a1[w].0 == pv[j].0);
                } else {
                    assert(a1[i as int].0 == pv[j].0);
                }
            }
            assert forall|mm: Seq<char>| !has_msg(a1, mm) implies #[trigger] total_of(pv.take(k + 1), mm) == 0 by {
                if has_msg(a0, mm) {
                    let w = choose|l: int| 0 <= l < a0.len() && #[trigger] a0[l].0 == mm;
                    assert(a1[w].0 == mm);
                }
                assert(a1[i as int].0 == m@);
            }
            assert(distinct_msgs(a1));
        } else {
            let name = crate::text::copy_range(m.as_slice(), 0, m.len());
            assert(name@ == m@);
            let ghost old_agg = agg@;
            agg.push((name, c));
            assert(agg@ == old_agg.push((name, c)));
            let ghost a1 = cpairs_view(agg@);
            assert(a1 =~= a0.push((m@, c as nat)));
            assert(!has_msg(a0, m@));
            assert forall|l: int| 0 <= l < a1.len() implies #[trigger] a1[l].1 == total_of(
                pv.take(k + 1),
                a1[l].0,
            ) && has_msg(pv.take(k + 1), a1[l].0) by {
                if l < a0.len() {
                    assert(a0[l].1 == total_of(pk, a0[l].0));
                assert(has_msg(pk, a0[l].0));
                    let w = choose|j: int| 0 <= j < pk.len() && #[trigger] pk[j].0 == a0[l].0;
                    assert(pv.take(k + 1)[w] == pk[w]);
                } else {
                    assert(pv.take(k + 1)[k as int] == x);
                }
            }
            assert forall|j: int| 0 <= j < k + 1 implies #[trigger] has_msg(a1, pv[j].0) by {
                if j < k {
                    assert(has_msg(a0, pv[j].0));
                    let w = choose|l: int| 0 <= l < a0.len() && #[trigger] a0[l].0 == pv[j].0;
                    assert(a1[w].0 == pv[j].0);
                } else {
                    assert(a1[a0.len() as int].0 == pv[j].0);
                }
            }
            assert forall|mm: Seq<char>| !has_msg(a1, mm) implies #[trigger] total_of(pv.take(k + 1), mm) == 0 by {
                if has_msg(a0, mm) {
                    let w = choose|l: int| 0 <= l < a0.len() && #[trigger] a0[l].0 == mm;
                    assert(a1[w].0 == mm);
                }
                assert(a1[a0.len() as int].0 == m@);
            }
        }
        k += 1;
    }
    assert(pv.take(k as int) =~= pv);
    agg
}

/// `ranks_before` is a strict order, total on entries of distinct
/// messages.
pub proof fn lemma_ranks(a: (Seq<char>, nat), b: (Seq<char>, nat), c: (Seq<char>, nat))
    ensures
        !ranks_before(a, a),
        ranks_before(a, b) ==> !ranks_before(b, a),
        ranks_before(a, b) && ranks_before(b, c) ==> ranks_before(a, c),
        a.0 != b.0 ==> ranks_before(a, b) || ranks_before(b, a),
{
    lemma_lt_irreflexive(a.0);
    lemma_lt_asymmetric(a.0, b.0);
    lemma_lt_transitive(a.0, b.0, c.0);
    lemma_lt_total(a.0, b.0);
}

/// Two lists each strictly in summary order, each holding every entry of
/// the other, are the same list.
pub proof fn lemma_same_ranked(s: Seq<(Seq<char>, nat)>, t: Seq<(Seq<char>, nat)>)
    requires
        forall|i: int, k: int| 0 <= i < k < s.len() ==> ranks_before(#[trigger] s[i], #[trigger] s[k]),
        forall|i: int, k: int| 0 <= i < k < t.len() ==> ranks_before(#[trigger] t[i], #[trigger] t[k]),
        forall|i: int| 0 <= i < s.len() ==> t.contains(#[trigger] s[i]),
        forall|i: int| 0 <= i < t.len() ==> s.contains(#[trigger] t[i]),
    ensures
        s == t,
    decreases s.len(),
{
    if s.len() == 0 {
        if t.len() > 0 {
            assert(s.contains(t[0]));
        }
        assert(s =~= t);
    } else {
        assert(t.contains(s[0]));
        let j = choose|j: int| 0 <= j < t.len() && t[j] == s[0];
        assert(s.contains(t[0]));
        let k = choose|k: int| 0 <= k < s.len() && s[k] == t[0];
        lemma_ranks(s[0], t[0], s[0]);
        lemma_ranks(t[0], s[0], t[0]);
        if j != 0 {
            assert(ranks_before(t[0], t[j]));
            if k != 0 {
                assert(ranks_before(s[0], s[k]));
            }
            assert(false);
        }
        let s1 = s.drop_first();
        let t1 = t.drop_first();
        assert forall|i: int| 0 <= i < s1.len() implies t1.contains(#[trigger] s1[i]) by {
            assert(s1[i] == s[i + 1]);
            assert(t.contains(s[i + 1]));
            let m = choose|m: int| 0 <= m < t.len() && t[m] == s[i + 1];
            if m == 0 {
                assert(ranks_before(s[0], s[i + 1]));
                lemma_ranks(s[0], s[0], s[0]);
                assert(false);
            }
            assert(t1[m - 1] == s1[i]);
        }
        assert forall|i: int| 0 <= i < t1.len() implies s1.contains(#[trigger] t1[i]) by {
            assert(t1[i] == t[i + 1]);
            assert(s.contains(t[i + 1]));
            let m = choose|m: int| 0 <= m < s.len() && s[m] == t[i + 1];
            if m == 0 {
                assert(ranks_before(t[0], t[i + 1]));
                lemma_ranks(t[0], t[0], t[0]);
                assert(false);
            }
            assert(s1[m - 1] == t1[i]);
        }
        assert forall|i: int, k: int| 0 <= i < k < s1.len() implies ranks_before(#[trigger] s1[i], #[trigger] s1[k]) by {
            assert(ranks_before(s[i + 1], s[k + 1]));
        }
        assert forall|i: int, k: int| 0 <= i < k < t1.len() implies ranks_before(#[trigger] t1[i], #[trigger] t1[k]) by {
            assert(ranks_before(t[i + 1], t[k + 1]));
        }
        lemma_same_ranked(s1, t1);
        assert(s =~= seq![s[0]] + s1);
        assert(t =~= seq![t[0]] + t1);
    }
}

/// The ranking of a list of error counts is unique: two rankings of the
/// same counts are the same list, so the summary is determined by the
/// counts.
pub proof fn lemma_ranking_unique(
    s: Seq<(Seq<char>, nat)>,
    t: Seq<(Seq<char>, nat)>,
    ps: Seq<(Seq<char>, nat)>,
)
    requires
        is_ranking(s, ps),
        is_ranking(t, ps),
    ensures
        s == t,
{
    assert forall|i: int| 0 <= i < s.len() implies t.contains(#[trigger] s[i]) by {
        assert(forall|k: int| 0 <= k < s.len() ==> #[trigger] s[k].1 == total_of(ps, s[k].0) && has_msg(ps, s[k].0));
        assert(s[i].1 == total_of(ps, s[i].0));
        assert(has_msg(ps, s[i].0));
        let j = choose|j: int| 0 <= j < ps.len() && #[trigger] ps[j].0 == s[i].0;
        assert(has_msg(t, ps[j].0));
        let l = choose|l: int| 0 <= l < t.len() && #[trigger] t[l].0 == ps[j].0;
        assert(t[l].1 == total_of(ps, t[l].0));
        assert(t[l] == s[i]);
    }
    assert forall|i: int| 0 <= i < t.len() implies s.contains(#[trigger] t[i]) by {
        assert(forall|k: int| 0 <= k < t.len() ==> #[trigger] t[k].1 == total_of(ps, t[k].0) && has_msg(ps, t[k].0));
        assert(t[i].1 == total_of(ps, t[i].0));
        assert(has_msg(ps, t[i].0));
        let j = choose|j: int| 0 <= j < ps.len() && #[trigger] ps[j].0 == t[i].0;
        assert(has_msg(s, ps[j].0));
        let l = choose|l: int| 0 <= l < s.len() && #[trigger] s[l].0 == ps[j].0;
        assert(s[l].1 == total_of(ps, s[l].0));
        assert(s[l] == t[i]);
    }
    lemma_same_ranked(s, t);
}

/// Whether entry `a` comes before entry `b` in the summary.
fn ranks_before_exec(a: &(Vec<char>, usize), b: &(Vec<char>, usize)) -> (r: bool)
    ensures
        r == ranks_before((a.0@, a.1 as nat), (b.0@, b.1 as nat)),
{
    if a.1 != b.1 {
        a.1 > b.1
    } else {
        crate::deps::sorted::compare_chars(a.0.as_slice(), b.0.as_slice()) < 0
    }
}

/// The entries of `agg` (of distinct messages) in summary order.
fn rank(agg: &Vec<(Vec<char>, usize)>) -> (r: Vec<(Vec<char>, usize)>)
    requires
        distinct_msgs(cpairs_view(agg@)),
    ensures
        forall|i: int| 0 <= i < r@.len() ==> cpairs_view(agg@).contains(#[trigger] cpairs_view(r@)[i]),
        forall|j: int| 0 <= j < agg@.len() ==> cpairs_view(r@).contains(#[trigger] cpairs_view(agg@)[j]),
        forall|i: int, k: int|
            0 <= i < k < r@.len() ==> ranks_before(#[trigger] cpairs_view(r@)[i], #[trigger] cpairs_view(r@)[k]),
{
    let ghost av = cpairs_view(agg@);
    let mut out: Vec<(Vec<char>, usize)> = Vec::new();
    let mut t: usize = 0;
    while t < agg.len()
        invariant
            t <= agg@.len(),
            av == cpairs_view(agg@),
            distinct_msgs(av),
            forall|i: int| 0 <= i < out@.len() ==> av.take(t as int).contains(#[trigger] cpairs_view(out@)[i]),
            forall|j: int| 0 <= j < t ==> cpairs_view(out@).contains(#[trigger] av[j]),
            forall|i: int, k: int|
                0 <= i < k < out@.len() ==> ranks_before(#[trigger] cpairs_view(out@)[i], #[trigger] cpairs_view(out@)[k]),
        decreases agg@.len() - t,
    {
        let ghost o0 = cpairs_view(out@);
        let ghost x = av[t as int];
        let mut p: usize = 0;
        while p < out.len() && !ranks_before_exec(&agg[t], &out[p])
            invariant
                p <= out@.len(),
                o0 == cpairs_view(out@),
                x == av[t as int],
                t < agg@.len(),
                av == cpairs_view(agg@),
                forall|i: int| 0 <= i < p ==> !ranks_before(x, #[trigger] o0[i]),
            decreases out@.len() - p,
        {
            p += 1;
        }
        let name = crate::text::copy_range(agg[t].0.as_slice(), 0, agg[t].0.len());
        assert(name@ =~= agg@[t as int].0@);
        assert(x == (agg@[t as int].0@, agg@[t as int].1 as nat));
        let elem = (name, agg[t].1);
        let ghost old_out = out@;
        out.insert(p, elem);
        let ghost o1 = cpairs_view(out@);
        assert(out@ == old_out.insert(p as int, elem));
        assert(o1 =~= o0.insert(p as int, x));
        assert forall|i: int| 0 <= i < o1.len() implies av.take(t + 1).contains(#[trigger] o1[i]) by {
            if i < p {
                assert(o1[i] == o0[i]);
                assert(av.take(t as int).contains(o0[i]));
                let w = choose|w: int| 0 <= w < t && av.take(t as int)[w] == o0[i];
                assert(av.take(t + 1)[w] == o0[i]);
            } else if i == p {
                assert(av.take(t + 1)[t as int] == x);
            } else {
                assert(o1[i] == o0[i - 1]);
                assert(av.take(t as int).contains(o0[i - 1]));
                let w = choose|w: int| 0 <= w < t && av.take(t as int)[w] == o0[i - 1];
                assert(av.take(t + 1)[w] == o0[i - 1]);
            }
        }
        assert forall|j: int| 0 <= j < t + 1 implies o1.contains(#[trigger] av[j]) by {
            if j < t {
                assert(o0.contains(av[j]));
                let w = choose|w: int| 0 <= w < o0.len() && o0[w] == av[j];
                if w < p {
                    assert(o1[w] == av[j]);
                } else {
                    assert(o1[w + 1] == av[j]);
                }
            } else {
                assert(o1[p as int] == av[j]);
            }
        }
        assert forall|i: int, k: int| 0 <= i < k < o1.len() implies ranks_before(#[trigger] o1[i], #[trigger] o1[k]) by {
            // every element of the old list is an earlier entry, so its message differs from x
            assert forall|l: int| 0 <= l < o0.len() implies #[trigger] o0[l].0 != x.0 by {
                assert(av.take(t as int).contains(o0[l]));
                let w = choose|w: int| 0 <= w < t && av.take(t as int)[w] == o0[l];
                assert(av[w] == o0[l]);
            }
            if k < p {
                assert(ranks_before(o0[i], o0[k]));
            } else if k == p {
                assert(!ranks_before(x, o0[i]));
                lemma_ranks(x, o0[i], x);
            } else if i < p {
                assert(!ranks_before(x, o0[i]));
                lemma_ranks(x, o0[i], x);
                assert(p < o0.len());
                assert(ranks_before(x, o0[p as int]));
                if k - 1 > p {
                    assert(ranks_before(o0[p as int], o0[k - 1]));
                    lemma_ranks(x, o0[p as int], o0[k - 1]);
                }
                lemma_ranks(o0[i], x, o0[k - 1]);
            } else if i == p {
                assert(ranks_before(x, o0[p as int]));
                if k - 1 > p {
                    assert(ranks_before(o0[p as int], o0[k - 1]));
                    lemma_ranks(x, o0[p as int], o0[k - 1]);
                }
            } else {
                assert(ranks_before(o0[i - 1], o0[k - 1]));
            }
        }
        t += 1;
    }
    assert(av.take(t as int) =~= av);
    out
}

/// The most frequent errors over all results: nothing when there is none,
/// else "Top errors:" after a blank line and, for the first ten messages
/// by total count (ties in message order), `  {count}x {message}`.
pub fn format_error_summary(results: &[ProjectResult]) -> (r: String)
    requires
        forall|m: Seq<char>| #[trigger] total_of(error_pairs(results@), m) <= usize::MAX,
    ensures
        exists|s: Seq<(Seq<char>, nat)>|
            is_ranking(s, error_pairs(results@)) && r@ == #[trigger] error_summary(s),
        forall|s: Seq<(Seq<char>, nat)>|
            is_ranking(s, error_pairs(results@)) ==> r@ == #[trigger] error_summary(s),
{
    let ps = flatten_errors(results);
    let ghost pv = error_pairs(results@);
    let agg = aggregate(&ps);
    let ranked = rank(&agg);
    let ghost av = cpairs_view(agg@);
    let ghost sv = cpairs_view(ranked@);
    assert forall|i: int| 0 <= i < sv.len() implies #[trigger] sv[i].1 == total_of(pv, sv[i].0)
        && has_msg(pv, sv[i].0) by {
        assert(av.contains(sv[i]));
        let w = choose|w: int| 0 <= w < av.len() && av[w] == sv[i];
        assert(av[w].1 == total_of(pv, av[w].0));
    }
    assert forall|j: int| 0 <= j < pv.len() implies #[trigger] has_msg(sv, pv[j].0) by {
        assert(has_msg(av, pv[j].0));
        let w = choose|w: int| 0 <= w < av.len() && #[trigger] av[w].0 == pv[j].0;
        assert(sv.contains(av[w]));
        let v = choose|v: int| 0 <= v < sv.len() && sv[v] == av[w];
        assert(sv[v].0 == pv[j].0);
    }
    assert(is_ranking(sv, pv));
    assert forall|s: Seq<(Seq<char>, nat)>| is_ranking(s, pv) implies s == sv by {
        lemma_ranking_unique(s, sv, pv);
    }
    if ranked.len() == 0 {
        let r = String::new();
        assert(r@ =~= error_summary(sv));
        return r;
    }
    let n: usize = if ranked.len() > TOP_ERRORS {
        TOP_ERRORS
    } else {
        ranked.len()
    };
    let mut out = chars_of("\nTop errors:\n");
    let ghost head = out@;
    let mut i: usize = 0;
    assert(sv.take(0) =~= Seq::<(Seq<char>, nat)>::empty());
    while i < n
        invariant
            i <= n <= ranked@.len(),
            sv == cpairs_view(ranked@),
            out@ == head + summary_lines_of(sv.take(i as int)),
        decreases n - i,
    {
        push_str(&mut out, "  ");
        let d = decimal_of(ranked[i].1);
        push_all(&mut out, d.as_slice());
        push_str(&mut out, "x ");
        push_all(&mut out, ranked[i].0.as_slice());
        push_str(&mut out, "\n");
        assert(sv.take(i + 1).drop_last() =~= sv.take(i as int));
        assert(sv[i as int] == (ranked@[i as int].0@, ranked@[i as int].1 as nat));
        i += 1;
        assert(out@ =~= head + summary_lines_of(sv.take(i as int)));
    }
    assert(out@ =~= error_summary(sv));
    string_of(out.as_slice())
}

} // verus!
