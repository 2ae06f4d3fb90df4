//! Cache keys: the content hash of a file and the fingerprint of a
//! repository's file list and workspace layout.
use vstd::prelude::*;

use crate::deps::pathmap::PathMap;
use crate::deps::sorted::{
    compare_chars, lemma_lt_asymmetric, lemma_lt_irreflexive, lemma_lt_total, lemma_lt_transitive,
    str_lt,
};
use vstd::relations::{sorted_by, total_ordering};
use crate::text::{chars_of, views};
use vstd::utf8::encode_utf8;

verus! {

/// The version of every cache format; a cache of another version is
/// rebuilt.
pub const CACHE_VERSION: u32 = 3;

/// What `blake3::hash` gives for `bytes`, in lowercase hexadecimal
/// (`Hash::to_hex`).
pub uninterp spec fn blake3_hex(bytes: Seq<u8>) -> Seq<char>;

/// Wraps `blake3::hash` and `Hash::to_hex`: the BLAKE3 hash of `bytes` in
/// hexadecimal, named by `blake3_hex`.
#[verifier::external_body]
pub(crate) fn hash_hex(bytes: &[u8]) -> (r: String)
    ensures
        r@ == blake3_hex(bytes@),
{
    blake3::hash(bytes).to_hex().to_string()
}

/// The content hash of a file: the BLAKE3 hash of its bytes in
/// hexadecimal.
pub fn content_hash(source: &[u8]) -> (r: String)
    ensures
        r@ == blake3_hex(source@),
{
    hash_hex(source)
}

/// Where `x` goes in the sorted `s` from position `k` on: before the first
/// text above it.
pub open spec fn text_pos(s: Seq<Seq<char>>, x: Seq<char>, k: int) -> int
    decreases s.len() - k,
{
    if k < 0 {
        0
    } else if k >= s.len() {
        s.len() as int
    } else if str_lt(x, s[k]) {
        k
    } else {
        text_pos(s, x, k + 1)
    }
}

pub proof fn lemma_text_pos(s: Seq<Seq<char>>, x: Seq<char>, k: int)
    requires
        0 <= k <= s.len(),
    ensures
        k <= text_pos(s, x, k) <= s.len(),
    decreases s.len() - k,
{
    if k < s.len() && !str_lt(x, s[k]) {
        lemma_text_pos(s, x, k + 1);
    }
}

/// `s` sorted (by insertion).
pub open spec fn sort_texts(s: Seq<Seq<char>>) -> Seq<Seq<char>>
    decreases s.len(),
{
    if s.len() == 0 {
        Seq::empty()
    } else {
        let t = sort_texts(s.drop_last());
        t.insert(text_pos(t, s.last(), 0), s.last())
    }
}

/// Where the pair `x` goes in `s` sorted by name from position `k` on.
pub open spec fn pair_pos(s: Seq<(Seq<char>, Seq<char>)>, x: (Seq<char>, Seq<char>), k: int) -> int
    decreases s.len() - k,
{
    if k < 0 {
        0
    } else if k >= s.len() {
        s.len() as int
    } else if str_lt(x.0, s[k].0) {
        k
    } else {
        pair_pos(s, x, k + 1)
    }
}

pub proof fn lemma_pair_pos(s: Seq<(Seq<char>, Seq<char>)>, x: (Seq<char>, Seq<char>), k: int)
    requires
        0 <= k <= s.len(),
    ensures
        k <= pair_pos(s, x, k) <= s.len(),
    decreases s.len() - k,
{
    if k < s.len() && !str_lt(x.0, s[k].0) {
        lemma_pair_pos(s, x, k + 1);
    }
}

/// The pairs `s` sorted by name (by stable insertion).
pub open spec fn sort_pairs(s: Seq<(Seq<char>, Seq<char>)>) -> Seq<(Seq<char>, Seq<char>)>
    decreases s.len(),
{
    if s.len() == 0 {
        Seq::empty()
    } else {
        let t = sort_pairs(s.drop_last());
        t.insert(pair_pos(t, s.last(), 0), s.last())
    }
}

/// The bytes of the texts `fs`, each followed by a zero byte.
pub open spec fn files_bytes(fs: Seq<Seq<char>>) -> Seq<u8>
    decreases fs.len(),
{
    if fs.len() == 0 {
        Seq::empty()
    } else {
        files_bytes(fs.drop_last()) + encode_utf8(fs.last()) + seq![0u8]
    }
}

/// The bytes of the pairs `ps`, each as `name=dir` followed by a zero byte.
pub open spec fn pairs_bytes(ps: Seq<(Seq<char>, Seq<char>)>) -> Seq<u8>
    decreases ps.len(),
{
    if ps.len() == 0 {
        Seq::empty()
    } else {
        pairs_bytes(ps.drop_last()) + encode_utf8(ps.last().0) + encode_utf8("="@) + encode_utf8(
            ps.last().1,
        ) + seq![0u8]
    }
}

/// What the fingerprint hashes: the sorted file list, then the crates
/// sorted by name, then the Go modules sorted by path.
pub open spec fn fingerprint_input(
    files: Seq<Seq<char>>,
    crates: Seq<(Seq<char>, Seq<char>)>,
    mods: Seq<(Seq<char>, Seq<char>)>,
) -> Seq<u8> {
    files_bytes(sort_texts(files)) + encode_utf8("\nCRATES\n"@) + pairs_bytes(sort_pairs(crates))
        + encode_utf8("\nGOMODS\n"@) + pairs_bytes(sort_pairs(mods))
}

/// `a` comes no later than `b` in the order of `String`.
pub open spec fn str_le(a: Seq<char>, b: Seq<char>) -> bool {
    !str_lt(b, a)
}

/// The order of `String` as a relation.
pub open spec fn text_order() -> spec_fn(Seq<char>, Seq<char>) -> bool {
    |a: Seq<char>, b: Seq<char>| str_le(a, b)
}

/// `str_le` is a total order.
pub proof fn lemma_str_le_total()
    ensures
        total_ordering(text_order()),
{
    let le = text_order();
    assert forall|x: Seq<char>| #[trigger] le(x, x) by {
        lemma_lt_irreflexive(x);
    }
    assert forall|x: Seq<char>, y: Seq<char>| #[trigger] le(x, y) && #[trigger] le(y, x) implies x
        == y by {
        lemma_lt_total(x, y);
    }
    assert forall|x: Seq<char>, y: Seq<char>, z: Seq<char>| #[trigger] le(x, y) && #[trigger] le(
        y,
        z,
    ) implies le(x, z) by {
        lemma_lt_total(x, y);
        lemma_lt_total(y, z);
        lemma_lt_transitive(z, x, y);
        lemma_lt_transitive(z, y, x);
        lemma_lt_transitive(y, z, x);
        if str_lt(z, x) {
            lemma_lt_total(x, y);
            lemma_lt_transitive(z, x, y);
            lemma_lt_asymmetric(y, z);
        }
    }
    assert forall|x: Seq<char>, y: Seq<char>| #[trigger] le(x, y) || #[trigger] le(y, x) by {
        lemma_lt_asymmetric(x, y);
    }
}

/// Where `text_pos` puts `x` in a sorted `t`: after what is not above it,
/// before what is.
pub proof fn lemma_text_pos_split(t: Seq<Seq<char>>, x: Seq<char>, k: int)
    requires
        0 <= k <= t.len(),
        sorted_by(t, text_order()),
        forall|j: int| 0 <= j < k ==> !str_lt(x, #[trigger] t[j]),
    ensures
        k <= text_pos(t, x, k) <= t.len(),
        forall|j: int| 0 <= j < text_pos(t, x, k) ==> !str_lt(x, #[trigger] t[j]),
        forall|j: int| text_pos(t, x, k) <= j < t.len() ==> str_lt(x, #[trigger] t[j]),
    decreases t.len() - k,
{
    if k < t.len() {
        if str_lt(x, t[k]) {
            assert forall|j: int| k <= j < t.len() implies str_lt(x, #[trigger] t[j]) by {
                if j > k {
                    assert(text_order()(t[k], t[j]));
                    lemma_lt_total(t[k], t[j]);
                    lemma_lt_transitive(x, t[k], t[j]);
                }
            }
        } else {
            lemma_text_pos_split(t, x, k + 1);
        }
    }
}

/// `sort_texts` sorts: its result is in order and has the same elements.
pub proof fn lemma_sort_texts(s: Seq<Seq<char>>)
    ensures
        sorted_by(sort_texts(s), text_order()),
        sort_texts(s).to_multiset() == s.to_multiset(),
    decreases s.len(),
{
    broadcast use vstd::seq_lib::group_to_multiset_ensures;

    if s.len() > 0 {
        let t = sort_texts(s.drop_last());
        let x = s.last();
        lemma_sort_texts(s.drop_last());
        lemma_text_pos_split(t, x, 0);
        let p = text_pos(t, x, 0);
        let u = t.insert(p, x);
        assert(u == sort_texts(s));
        assert forall|i: int, j: int| 0 <= i < j < u.len() implies #[trigger] text_order()(u[i], u[j]) by {
            if j < p {
                assert(text_order()(t[i], t[j]));
            } else if j == p {
                assert(!str_lt(x, t[i]));
            } else if i < p {
                assert(!str_lt(x, t[i]));
                assert(str_lt(x, t[j - 1]));
                lemma_lt_total(x, t[i]);
                lemma_lt_transitive(t[i], x, t[j - 1]);
                lemma_lt_asymmetric(t[i], t[j - 1]);
                if t[i] == x {
                    lemma_lt_asymmetric(x, t[j - 1]);
                }
            } else if i == p {
                assert(str_lt(x, t[j - 1]));
                lemma_lt_asymmetric(x, t[j - 1]);
            } else {
                assert(text_order()(t[i - 1], t[j - 1]));
            }
        }
        assert(s =~= s.drop_last().push(x));
    }
}

/// Lists of the same files in any order sort alike.
pub proof fn lemma_sort_texts_same(a: Seq<Seq<char>>, b: Seq<Seq<char>>)
    requires
        a.to_multiset() == b.to_multiset(),
    ensures
        sort_texts(a) == sort_texts(b),
{
    lemma_sort_texts(a);
    lemma_sort_texts(b);
    lemma_str_le_total();
    vstd::seq_lib::lemma_sorted_unique(sort_texts(a), sort_texts(b), text_order());
}

/// The fingerprint of a repository does not depend on the order in which
/// its files are listed: the same files in any order give the same
/// fingerprint.
pub proof fn law_fingerprint_ignores_file_order(
    a: Seq<Seq<char>>,
    b: Seq<Seq<char>>,
    crates: Seq<(Seq<char>, Seq<char>)>,
    mods: Seq<(Seq<char>, Seq<char>)>,
)
    requires
        a.to_multiset() == b.to_multiset(),
    ensures
        blake3_hex(fingerprint_input(a, crates, mods)) == blake3_hex(fingerprint_input(b, crates, mods)),
{
    lemma_sort_texts_same(a, b);
}

/// Appends the bytes of a text.
fn push_bytes(out: &mut Vec<u8>, s: &str)
    ensures
        final(out)@ == old(out)@ + encode_utf8(s@),
{
    let b = s.as_bytes();
    let ghost o0 = out@;
    let mut i: usize = 0;
    while i < b.len()
        invariant
            i <= b@.len(),
            b@ == encode_utf8(s@),
            out@ == o0 + b@.take(i as int),
        decreases b@.len() - i,
    {
        out.push(b[i]);
        i += 1;
        assert(out@ =~= o0 + b@.take(i as int));
    }
    assert(b@.take(i as int) =~= b@);
}

/// The texts sorted.
fn sorted_texts(v: &[String]) -> (r: Vec<String>)
    ensures
        views(r@) == sort_texts(views(v@)),
{
    let mut r: Vec<String> = Vec::new();
    let mut i: usize = 0;
    assert(views(v@).take(0) =~= Seq::<Seq<char>>::empty());
    assert(views(r@) =~= Seq::<Seq<char>>::empty());
    while i < v.len()
        invariant
            i <= v@.len(),
            views(r@) == sort_texts(views(v@).take(i as int)),
        decreases v@.len() - i,
    {
        let x = chars_of(v[i].as_str());
        let mut k: usize = 0;
        let mut placed = false;
        let ghost t = views(r@);
        proof {
            lemma_text_pos(t, x@, 0);
        }
        while !placed && k < r.len()
            invariant
                t == views(r@),
                k <= r@.len(),
                placed ==> text_pos(t, x@, 0) == k,
                !placed ==> text_pos(t, x@, 0) == text_pos(t, x@, k as int),
            decreases r@.len() - k, if placed { 0int } else { 1int },
        {
            let y = chars_of(r[k].as_str());
            if compare_chars(x.as_slice(), y.as_slice()) < 0 {
                placed = true;
            } else {
                k += 1;
            }
        }
        let s = crate::text::string_of(x.as_slice());
        r.insert(k, s);
        proof {
            let p = views(v@).take(i + 1);
            assert(p.drop_last() =~= views(v@).take(i as int));
            assert(p.last() == x@);
            assert(views(r@) =~= t.insert(k as int, x@));
        }
        i += 1;
    }
    assert(views(v@).take(i as int) =~= views(v@));
    r
}

/// The entries of a path map sorted by name.
fn sorted_pairs(m: &PathMap) -> (r: Vec<(String, String)>)
    ensures
        r@.map_values(|e: (String, String)| (e.0@, e.1@)) == sort_pairs(m@),
{
    let ghost pv = |e: (String, String)| (e.0@, e.1@);
    let mut r: Vec<(String, String)> = Vec::new();
    let mut i: usize = 0;
    assert(m@.take(0) =~= Seq::<(Seq<char>, Seq<char>)>::empty());
    assert(r@.map_values(pv) =~= Seq::<(Seq<char>, Seq<char>)>::empty());
    while i < m.len()
        invariant
            i <= m@.len(),
            pv == (|e: (String, String)| (e.0@, e.1@)),
            r@.map_values(pv) == sort_pairs(m@.take(i as int)),
        decreases m@.len() - i,
    {
        let name = chars_of(m.name_at(i).as_str());
        let dir = chars_of(m.dir_at(i).as_str());
        let ghost x = (name@, dir@);
        let ghost t = r@.map_values(pv);
        let mut k: usize = 0;
        let mut placed = false;
        proof {
            lemma_pair_pos(t, x, 0);
        }
        while !placed && k < r.len()
            invariant
                t == r@.map_values(pv),
                pv == (|e: (String, String)| (e.0@, e.1@)),
                x.0 == name@,
                k <= r@.len(),
                placed ==> pair_pos(t, x, 0) == k,
                !placed ==> pair_pos(t, x, 0) == pair_pos(t, x, k as int),
            decreases r@.len() - k, if placed { 0int } else { 1int },
        {
            let y = chars_of(r[k].0.as_str());
            assert(y@ == t[k as int].0);
            if compare_chars(name.as_slice(), y.as_slice()) < 0 {
                placed = true;
            } else {
                k += 1;
            }
        }
        let e = (crate::text::string_of(name.as_slice()), crate::text::string_of(dir.as_slice()));
        r.insert(k, e);
        proof {
            let p = m@.take(i + 1);
            assert(p.drop_last() =~= m@.take(i as int));
            assert(p.last() == x);
            assert(r@.map_values(pv) =~= t.insert(k as int, x));
        }
        i += 1;
    }
    assert(m@.take(i as int) =~= m@);
    r
}

/// Appends the bytes of sorted pairs.
fn push_pairs(out: &mut Vec<u8>, ps: &Vec<(String, String)>)
    ensures
        final(out)@ == old(out)@ + pairs_bytes(ps@.map_values(|e: (String, String)| (e.0@, e.1@))),
{
    let ghost pv = ps@.map_values(|e: (String, String)| (e.0@, e.1@));
    let ghost o0 = out@;
    let mut i: usize = 0;
    assert(out@ =~= o0 + pairs_bytes(pv.take(0)));
    while i < ps.len()
        invariant
            i <= ps@.len(),
            pv == ps@.map_values(|e: (String, String)| (e.0@, e.1@)),
            out@ == o0 + pairs_bytes(pv.take(i as int)),
        decreases ps@.len() - i,
    {
        push_bytes(out, ps[i].0.as_str());
        push_bytes(out, "=");
        push_bytes(out, ps[i].1.as_str());
        out.push(0u8);
        assert(pv.take(i + 1).drop_last() =~= pv.take(i as int));
        i += 1;
        assert(out@ =~= o0 + pairs_bytes(pv.take(i as int)));
    }
    assert(pv.take(i as int) =~= pv);
}

/// The fingerprint of a repository: the BLAKE3 hash (in hexadecimal) of
/// its sorted file list, its crates sorted by name and its Go modules
/// sorted by path. It changes when a file is added, removed or renamed,
/// or the workspace layout changes.
pub fn compute_fingerprint(all_files: &[String], crate_map: &PathMap, go_module_map: &PathMap) -> (r:
    String)
    ensures
        r@ == blake3_hex(fingerprint_input(views(all_files@), crate_map@, go_module_map@)),
{
    let mut bytes: Vec<u8> = Vec::new();
    let files = sorted_texts(all_files);
    let ghost fv = views(files@);
    let mut i: usize = 0;
    assert(bytes@ =~= files_bytes(fv.take(0)));
    while i < files.len()
        invariant
            i <= files@.len(),
            fv == views(files@),
            bytes@ == files_bytes(fv.take(i as int)),
        decreases files@.len() - i,
    {
        push_bytes(&mut bytes, files[i].as_str());
        bytes.push(0u8);
        assert(fv.take(i + 1).drop_last() =~= fv.take(i as int));
        i += 1;
        assert(bytes@ =~= files_bytes(fv.take(i as int)));
    }
    assert(fv.take(i as int) =~= fv);
    push_bytes(&mut bytes, "\nCRATES\n");
    let crates = sorted_pairs(crate_map);
    push_pairs(&mut bytes, &crates);
    push_bytes(&mut bytes, "\nGOMODS\n");
    let mods = sorted_pairs(go_module_map);
    push_pairs(&mut bytes, &mods);
    hash_hex(bytes.as_slice())
}

} // verus!
