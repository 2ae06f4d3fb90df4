//! Sorted sets of texts: the order of `String`'s `Ord`, and the one
//! strictly increasing sequence that lists a finite set.
use vstd::prelude::*;

verus! {

/// `a < b` in the order of `String` (lexicographic by character).
pub open spec fn str_lt(a: Seq<char>, b: Seq<char>) -> bool
    decreases a.len(),
{
    if a.len() == 0 {
        b.len() > 0
    } else if b.len() == 0 {
        false
    } else if a[0] != b[0] {
        a[0] < b[0]
    } else {
        str_lt(a.drop_first(), b.drop_first())
    }
}

/// Every element of `s` is below the elements after it.
pub open spec fn strictly_sorted(s: Seq<Seq<char>>) -> bool {
    forall|i: int, j: int| 0 <= i < j < s.len() ==> str_lt(s[i], s[j])
}

/// The strictly increasing sequence whose elements are those of `set`
/// (what sorting and de-duplicating a list of them gives).
pub open spec fn sorted_set(set: Set<Seq<char>>) -> Seq<Seq<char>> {
    choose|q: Seq<Seq<char>>| strictly_sorted(q) && q.to_set() == set
}

/// The texts of a sequence of character vectors.
pub open spec fn cviews(v: Seq<Vec<char>>) -> Seq<Seq<char>> {
    v.map_values(|x: Vec<char>| x@)
}

pub proof fn lemma_lt_irreflexive(a: Seq<char>)
    ensures
        !str_lt(a, a),
    decreases a.len(),
{
    if a.len() > 0 {
        lemma_lt_irreflexive(a.drop_first());
    }
}

pub proof fn lemma_lt_asymmetric(a: Seq<char>, b: Seq<char>)
    ensures
        str_lt(a, b) ==> !str_lt(b, a),
    decreases a.len(),
{
    if a.len() > 0 && b.len() > 0 && a[0] == b[0] {
        lemma_lt_asymmetric(a.drop_first(), b.drop_first());
    }
}

pub proof fn lemma_lt_transitive(a: Seq<char>, b: Seq<char>, c: Seq<char>)
    ensures
        str_lt(a, b) && str_lt(b, c) ==> str_lt(a, c),
    decreases a.len(),
{
    if a.len() > 0 && b.len() > 0 && c.len() > 0 {
        lemma_lt_transitive(a.drop_first(), b.drop_first(), c.drop_first());
    }
}

pub proof fn lemma_lt_total(a: Seq<char>, b: Seq<char>)
    ensures
        a == b || str_lt(a, b) || str_lt(b, a),
    decreases a.len(),
{
    if a.len() > 0 && b.len() > 0 && a[0] == b[0] {
        lemma_lt_total(a.drop_first(), b.drop_first());
        if a.drop_first() == b.drop_first() {
            assert(a =~= seq![a[0]] + a.drop_first());
            assert(b =~= seq![b[0]] + b.drop_first());
        }
    } else if a.len() == 0 && b.len() == 0 {
        assert(a =~= b);
    }
}

/// Two strictly increasing sequences with the same elements are equal.
pub proof fn lemma_sorted_unique(a: Seq<Seq<char>>, b: Seq<Seq<char>>)
    requires
        strictly_sorted(a),
        strictly_sorted(b),
        a.to_set() == b.to_set(),
    ensures
        a == b,
    decreases a.len(),
{
    if a.len() == 0 {
        if b.len() > 0 {
            assert(b.to_set().contains(b[0]));
        }
        assert(a =~= b);
    } else {
        assert(a.to_set().contains(a[0]));
        assert(b.to_set().contains(a[0]));
        assert(b.len() > 0);
        assert(b.to_set().contains(b[0]));
        assert(a.to_set().contains(b[0]));
        let i = choose|i: int| 0 <= i < a.len() && a[i] == b[0];
        let j = choose|j: int| 0 <= j < b.len() && b[j] == a[0];
        if i > 0 && j > 0 {
            lemma_lt_asymmetric(a[0], b[0]);
            assert(false);
        }
        assert(a[0] == b[0]) by {
            if i == 0 {
            } else {
                assert(j == 0);
            }
        }
        let a1 = a.drop_first();
        let b1 = b.drop_first();
        assert forall|x: Seq<char>| a1.to_set().contains(x) implies b1.to_set().contains(x) by {
            let k = choose|k: int| 0 <= k < a1.len() && a1[k] == x;
            assert(a.to_set().contains(x));
            assert(b.to_set().contains(x));
            let l = choose|l: int| 0 <= l < b.len() && b[l] == x;
            if l == 0 {
                assert(str_lt(a[0], a[k + 1]));
                lemma_lt_irreflexive(x);
                assert(false);
            }
            assert(b1[l - 1] == x);
        }
        assert forall|x: Seq<char>| b1.to_set().contains(x) implies a1.to_set().contains(x) by {
            let k = choose|k: int| 0 <= k < b1.len() && b1[k] == x;
            assert(b.to_set().contains(x));
            assert(a.to_set().contains(x));
            let l = choose|l: int| 0 <= l < a.len() && a[l] == x;
            if l == 0 {
                assert(str_lt(b[0], b[k + 1]));
                lemma_lt_irreflexive(x);
                assert(false);
            }
            assert(a1[l - 1] == x);
        }
        assert(a1.to_set() =~= b1.to_set());
        lemma_sorted_unique(a1, b1);
        assert(a =~= seq![a[0]] + a1);
        assert(b =~= seq![b[0]] + b1);
    }
}

/// A strictly increasing sequence is the sorted listing of its elements.
pub proof fn lemma_is_sorted_set(q: Seq<Seq<char>>)
    requires
        strictly_sorted(q),
    ensures
        sorted_set(q.to_set()) == q,
{
    let r = sorted_set(q.to_set());
    assert(strictly_sorted(r) && r.to_set() == q.to_set());
    lemma_sorted_unique(r, q);
}

/// The order of `String` on two texts: `Less`, `Equal` or `Greater` as -1, 0, 1.
pub fn compare_chars(a: &[char], b: &[char]) -> (r: i8)
    ensures
        r == 0 <==> a@ == b@,
        r < 0 <==> str_lt(a@, b@),
        r > 0 <==> str_lt(b@, a@),
{
    let mut i: usize = 0;
    assert(a@.skip(0) =~= a@);
    assert(b@.skip(0) =~= b@);
    while i < a.len() && i < b.len() && a[i] == b[i]
        invariant
            i <= a.len(),
            i <= b.len(),
            a@.take(i as int) == b@.take(i as int),
            str_lt(a@, b@) == str_lt(a@.skip(i as int), b@.skip(i as int)),
            str_lt(b@, a@) == str_lt(b@.skip(i as int), a@.skip(i as int)),
        decreases a.len() - i,
    {
        assert(a@.skip(i as int).drop_first() =~= a@.skip(i + 1));
        assert(b@.skip(i as int).drop_first() =~= b@.skip(i + 1));
        assert(a@.take(i + 1) =~= a@.take(i as int).push(a@[i as int]));
        assert(b@.take(i + 1) =~= b@.take(i as int).push(b@[i as int]));
        i += 1;
    }
    proof {
        lemma_lt_irreflexive(a@);
        lemma_lt_asymmetric(a@, b@);
    }
    if i < a.len() && i < b.len() {
        assert(a@ != b@) by {
            assert(a@[i as int] != b@[i as int]);
        }
        if a[i] < b[i] {
            -1
        } else {
            1
        }
    } else if i == a.len() && i == b.len() {
        assert(a@ =~= a@.take(i as int));
        assert(b@ =~= b@.take(i as int));
        0
    } else if i == a.len() {
        assert(a@.skip(i as int).len() == 0);
        assert(a@ != b@) by {
            assert(a@.len() != b@.len());
        }
        -1
    } else {
        assert(b@.skip(i as int).len() == 0);
        assert(a@ != b@) by {
            assert(a@.len() != b@.len());
        }
        1
    }
}

/// Adds `x` to the strictly increasing `v`, keeping it so (a set insert).
pub fn insert_sorted(v: &mut Vec<Vec<char>>, x: &[char])
    requires
        strictly_sorted(cviews(old(v)@)),
    ensures
        strictly_sorted(cviews(final(v)@)),
        cviews(final(v)@).to_set() == cviews(old(v)@).to_set().insert(x@),
{
    let ghost s = cviews(v@);
    let mut i: usize = 0;
    while i < v.len()
        invariant
            i <= v@.len(),
            s == cviews(v@),
            strictly_sorted(s),
            forall|k: int| 0 <= k < i ==> str_lt(#[trigger] s[k], x@),
        ensures
            i <= v@.len(),
            s == cviews(v@),
            forall|k: int| 0 <= k < i ==> str_lt(#[trigger] s[k], x@),
            i < v@.len() ==> str_lt(x@, s[i as int]),
        decreases v@.len() - i,
    {
        let c = compare_chars(v[i].as_slice(), x);
        if c == 0 {
            assert(s.to_set().insert(x@) =~= s.to_set()) by {
                assert(s[i as int] == x@);
            }
            return;
        }
        if c > 0 {
            break;
        }
        i += 1;
    }
    let xv = copy_range(x, 0, x.len());
    assert(xv@ =~= x@);
    v.insert(i, xv);
    let ghost t = cviews(v@);
    assert(t =~= s.insert(i as int, x@));
    assert forall|a: int, b: int| 0 <= a < b < t.len() implies str_lt(t[a], t[b]) by {
        if i < s.len() {
            assert(str_lt(x@, s[i as int]));
            if a < i as int && b > i as int {
                lemma_lt_transitive(s[a], x@, s[b - 1]);
            }
            if a == i as int && b > i as int + 1 {
                lemma_lt_transitive(x@, s[i as int], s[b - 1]);
            }
        }
    }
    assert(t.to_set() =~= s.to_set().insert(x@)) by {
        assert forall|y: Seq<char>| t.to_set().contains(y) implies s.to_set().insert(x@).contains(y) by {
            let k = choose|k: int| 0 <= k < t.len() && t[k] == y;
            if k < i {
                assert(s[k] == y);
            } else if k > i {
                assert(s[k - 1] == y);
            }
        }
        assert forall|y: Seq<char>| s.to_set().insert(x@).contains(y) implies t.to_set().contains(y) by {
            if y == x@ {
                assert(t[i as int] == y);
            } else {
                let k = choose|k: int| 0 <= k < s.len() && s[k] == y;
                if k < i {
                    assert(t[k] == y);
                } else {
                    assert(t[k + 1] == y);
                }
            }
        }
    }
}

/// Copies a text out of a slice.
fn copy_range(s: &[char], a: usize, b: usize) -> (r: Vec<char>)
    requires
        a <= b <= s.len(),
    ensures
        r@ == s@.subrange(a as int, b as int),
{
    crate::text::copy_range(s, a, b)
}

} // verus!
