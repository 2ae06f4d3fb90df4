//! Character-sequence helpers shared by the whole library: the string
//! operations of std that the library relies on, stated over `Seq<char>`
//! and implemented on character vectors.
use vstd::prelude::*;

verus! {

/// `char::is_whitespace`: the characters with Unicode's White_Space property.
pub open spec fn is_ws(c: char) -> bool {
    let u = c as u32;
    (9 <= u && u <= 13) || u == 32 || u == 0x85 || u == 0xa0 || u == 0x1680 || (0x2000 <= u && u
        <= 0x200a) || u == 0x2028 || u == 0x2029 || u == 0x202f || u == 0x205f || u == 0x3000
}

/// `str::trim_start`.
pub open spec fn trim_start(s: Seq<char>) -> Seq<char>
    decreases s.len(),
{
    if s.len() > 0 && is_ws(s[0]) {
        trim_start(s.drop_first())
    } else {
        s
    }
}

/// `str::trim_end`.
pub open spec fn trim_end(s: Seq<char>) -> Seq<char>
    decreases s.len(),
{
    if s.len() > 0 && is_ws(s.last()) {
        trim_end(s.drop_last())
    } else {
        s
    }
}

/// `str::trim`.
pub open spec fn trim(s: Seq<char>) -> Seq<char> {
    trim_end(trim_start(s))
}

/// `p` occurs in `s` at position `i`.
pub open spec fn occurs_at(s: Seq<char>, p: Seq<char>, i: int) -> bool {
    0 <= i && i + p.len() <= s.len() && s.subrange(i, i + p.len()) == p
}

/// `str::starts_with`.
pub open spec fn starts_with(s: Seq<char>, p: Seq<char>) -> bool {
    occurs_at(s, p, 0)
}

/// `str::ends_with`.
pub open spec fn ends_with(s: Seq<char>, p: Seq<char>) -> bool {
    occurs_at(s, p, s.len() - p.len())
}

/// `str::contains`.
pub open spec fn contains(s: Seq<char>, p: Seq<char>) -> bool {
    exists|i: int| occurs_at(s, p, i)
}

/// The first position at or after `i` where `p` occurs in `s` (`str::find` from `i`).
pub open spec fn find_at(s: Seq<char>, p: Seq<char>, i: int) -> Option<int>
    decreases s.len() + 1 - i,
{
    if i > s.len() {
        None
    } else if occurs_at(s, p, i) {
        Some(i)
    } else {
        find_at(s, p, i + 1)
    }
}

/// `s` without one trailing carriage return.
pub open spec fn strip_cr(s: Seq<char>) -> Seq<char> {
    if s.len() > 0 && s.last() == '\r' {
        s.drop_last()
    } else {
        s
    }
}

/// The lines of `s`, as `str::lines` yields them: split at `\n`, a `\r`
/// before the `\n` removed, no empty line after a final `\n`.
pub open spec fn lines(s: Seq<char>) -> Seq<Seq<char>>
    decreases s.len(),
{
    if s.len() == 0 {
        Seq::empty()
    } else {
        match find_at(s, seq!['\n'], 0) {
            Some(i) => if 0 <= i < s.len() {
                seq![strip_cr(s.take(i))] + lines(s.skip(i + 1))
            } else {
                seq![s]
            },
            None => seq![s],
        }
    }
}

/// `char::is_ascii_uppercase`.
pub open spec fn is_upper(c: char) -> bool {
    'A' <= c && c <= 'Z'
}

/// Every character `a` of `s` replaced by `b` (`str::replace` with single characters).
pub open spec fn replace_char(s: Seq<char>, a: char, b: char) -> Seq<char> {
    s.map_values(|c: char| if c == a { b } else { c })
}

/// The decimal digits of `n` (`usize::to_string`).
pub open spec fn decimal(n: nat) -> Seq<char>
    decreases n,
{
    if n < 10 {
        seq![digit_char(n)]
    } else {
        decimal(n / 10).push(digit_char(n % 10))
    }
}

pub open spec fn digit_char(d: nat) -> char {
    if d == 0 {
        '0'
    } else if d == 1 {
        '1'
    } else if d == 2 {
        '2'
    } else if d == 3 {
        '3'
    } else if d == 4 {
        '4'
    } else if d == 5 {
        '5'
    } else if d == 6 {
        '6'
    } else if d == 7 {
        '7'
    } else if d == 8 {
        '8'
    } else {
        '9'
    }
}

/// The parts of `s` separated by the non-empty `sep`, in order (`str::split`).
pub open spec fn split_str(s: Seq<char>, sep: Seq<char>) -> Seq<Seq<char>>
    decreases s.len(),
{
    match find_at(s, sep, 0) {
        Some(i) => if sep.len() > 0 && 0 <= i && i + sep.len() <= s.len() {
            seq![s.take(i)] + split_str(s.skip(i + sep.len()), sep)
        } else {
            seq![s]
        },
        None => seq![s],
    }
}

/// `s` without the prefix `p`, if it has it (`str::strip_prefix`).
pub open spec fn strip_prefix(s: Seq<char>, p: Seq<char>) -> Option<Seq<char>> {
    if starts_with(s, p) {
        Some(s.skip(p.len() as int))
    } else {
        None
    }
}

/// `s` without the suffix `p`, if it has it (`str::strip_suffix`).
pub open spec fn strip_suffix(s: Seq<char>, p: Seq<char>) -> Option<Seq<char>> {
    if ends_with(s, p) {
        Some(s.take(s.len() - p.len()))
    } else {
        None
    }
}

/// The texts of a sequence of strings.
pub open spec fn views(v: Seq<String>) -> Seq<Seq<char>> {
    v.map_values(|x: String| x@)
}

/// The text of an optional string.
pub open spec fn opt_view(o: Option<String>) -> Option<Seq<char>> {
    match o {
        Some(x) => Some(x@),
        None => None,
    }
}

/// The parts joined with `sep` between them (`[String]::join`).
pub open spec fn join(parts: Seq<Seq<char>>, sep: Seq<char>) -> Seq<char>
    decreases parts.len(),
{
    if parts.len() == 0 {
        Seq::empty()
    } else if parts.len() == 1 {
        parts[0]
    } else {
        join(parts.drop_last(), sep) + sep + parts.last()
    }
}

/// Wraps `String::push`: appends one character.
#[verifier::external_body]
fn push_char(s: &mut String, c: char)
    ensures
        final(s)@ == old(s)@.push(c),
{
    s.push(c);
}

/// The characters of `s`, in order.
pub fn chars_of(s: &str) -> (v: Vec<char>)
    ensures
        v@ == s@,
{
    let mut v: Vec<char> = Vec::new();
    for c in it: s.chars()
        invariant
            v@ == it.seq().take(it.index() as int),
    {
        v.push(c);
    }
    v
}

/// The string made of the characters of `v`.
pub fn string_of(v: &[char]) -> (s: String)
    ensures
        s@ == v@,
{
    let mut s = String::new();
    let mut i: usize = 0;
    while i < v.len()
        invariant
            i <= v.len(),
            s@ == v@.take(i as int),
        decreases v.len() - i,
    {
        push_char(&mut s, v[i]);
        i += 1;
        assert(v@.take(i as int) == v@.take(i - 1).push(v@[i - 1]));
    }
    assert(v@.take(v.len() as int) == v@);
    s
}

/// Appends all of `t` to `v`.
pub fn push_all(v: &mut Vec<char>, t: &[char])
    ensures
        final(v)@ == old(v)@ + t@,
{
    let mut i: usize = 0;
    while i < t.len()
        invariant
            i <= t.len(),
            v@ == old(v)@ + t@.take(i as int),
        decreases t.len() - i,
    {
        v.push(t[i]);
        i += 1;
        assert(t@.take(i as int) == t@.take(i - 1).push(t@[i - 1]));
    }
    assert(t@.take(t.len() as int) == t@);
}

/// Appends the characters of `t` to `v`.
pub fn push_str(v: &mut Vec<char>, t: &str)
    ensures
        final(v)@ == old(v)@ + t@,
{
    let c = chars_of(t);
    push_all(v, c.as_slice());
}

/// Whether `p` occurs in `s` at position `i`.
pub fn occurs_at_exec(s: &[char], p: &[char], i: usize) -> (b: bool)
    ensures
        b == occurs_at(s@, p@, i as int),
{
    if i > s.len() || p.len() > s.len() - i {
        return false;
    }
    let mut j: usize = 0;
    while j < p.len()
        invariant
            j <= p.len(),
            i + p.len() <= s.len(),
            forall|k: int| 0 <= k < j ==> s@[i + k] == p@[k],
        decreases p.len() - j,
    {
        if s[i + j] != p[j] {
            assert(s@.subrange(i as int, i + p.len())[j as int] != p@[j as int]);
            return false;
        }
        j += 1;
    }
    assert(s@.subrange(i as int, i + p.len()) =~= p@);
    true
}

proof fn lemma_occurs_nl(t: Seq<char>, k: int)
    requires
        0 <= k < t.len(),
    ensures
        occurs_at(t, seq!['\n'], k) == (t[k] == '\n'),
{
    if t[k] == '\n' {
        assert(t.subrange(k, k + 1) =~= seq!['\n']);
    } else {
        assert(t.subrange(k, k + 1)[0] != seq!['\n'][0]);
    }
}

/// The lines of `s` (`str::lines`).
pub fn lines_of(s: &[char]) -> (r: Vec<Vec<char>>)
    ensures
        r@.len() == lines(s@).len(),
        forall|i: int| 0 <= i < r@.len() ==> #[trigger] r@[i]@ == lines(s@)[i],
{
    let mut r: Vec<Vec<char>> = Vec::new();
    let ghost mut done: Seq<Seq<char>> = Seq::empty();
    let mut pos: usize = 0;
    assert(s@.skip(0) =~= s@);
    while pos < s.len()
        invariant
            pos <= s.len(),
            lines(s@) == done + lines(s@.skip(pos as int)),
            r@.len() == done.len(),
            forall|i: int| 0 <= i < r@.len() ==> #[trigger] r@[i]@ == done[i],
        decreases s.len() - pos,
    {
        let ghost t = s@.skip(pos as int);
        let mut j = pos;
        assert(find_at(t, seq!['\n'], 0) == find_at(t, seq!['\n'], (j - pos) as int));
        while j < s.len() && s[j] != '\n'
            invariant
                pos <= j <= s.len(),
                t == s@.skip(pos as int),
                find_at(t, seq!['\n'], 0) == find_at(t, seq!['\n'], (j - pos) as int),
            decreases s.len() - j,
        {
            proof {
                lemma_occurs_nl(t, (j - pos) as int);
            }
            j += 1;
        }
        if j < s.len() {
            proof {
                lemma_occurs_nl(t, (j - pos) as int);
            }
            let mut end = j;
            if end > pos && s[end - 1] == '\r' {
                end -= 1;
            }
            let line = copy_range(s, pos, end);
            assert(t.take(j - pos) =~= s@.subrange(pos as int, j as int));
            assert(t.skip(j - pos + 1) =~= s@.skip(j + 1));
            proof {
                if j > pos && s@[j - 1] == '\r' {
                    assert(strip_cr(t.take(j - pos)) =~= s@.subrange(pos as int, end as int));
                } else {
                    assert(strip_cr(t.take(j - pos)) =~= s@.subrange(pos as int, end as int));
                }
                done = done.push(line@);
            }
            r.push(line);
            pos = j + 1;
        } else {
            assert(find_at(t, seq!['\n'], (j - pos) as int + 1) is None);
            let line = copy_range(s, pos, s.len());
            assert(t =~= s@.subrange(pos as int, s.len() as int));
            assert(s@.skip(s.len() as int) =~= Seq::<char>::empty());
            proof {
                done = done.push(line@);
            }
            r.push(line);
            pos = s.len();
        }
    }
    assert(s@.skip(pos as int) =~= Seq::<char>::empty());
    assert(done + Seq::<Seq<char>>::empty() =~= done);
    r
}

/// `str::starts_with`.
pub fn has_prefix(s: &[char], p: &[char]) -> (b: bool)
    ensures
        b == starts_with(s@, p@),
{
    occurs_at_exec(s, p, 0)
}

/// `str::ends_with`.
pub fn has_suffix(s: &[char], p: &[char]) -> (b: bool)
    ensures
        b == ends_with(s@, p@),
{
    if p.len() > s.len() {
        false
    } else {
        occurs_at_exec(s, p, s.len() - p.len())
    }
}

/// The first position at or after `from` where `p` occurs in `s`.
pub fn find_from(s: &[char], p: &[char], from: usize) -> (r: Option<usize>)
    ensures
        r matches Some(i) ==> find_at(s@, p@, from as int) == Some(i as int),
        r is None ==> find_at(s@, p@, from as int) is None,
        match r {
            Some(i) => from <= i && occurs_at(s@, p@, i as int) && forall|k: int|
                from <= k < i ==> !occurs_at(s@, p@, k),
            None => forall|k: int| from <= k ==> !occurs_at(s@, p@, k),
        },
{
    let mut i = from;
    while i < s.len()
        invariant
            from <= i,
            forall|k: int| from <= k < i ==> !occurs_at(s@, p@, k),
            find_at(s@, p@, from as int) == find_at(s@, p@, i as int),
        decreases s.len() - i,
    {
        if occurs_at_exec(s, p, i) {
            return Some(i);
        }
        i += 1;
    }
    if i == s.len() && occurs_at_exec(s, p, i) {
        return Some(i);
    }
    assert(find_at(s@, p@, i as int + 1) is None);
    None
}

/// Whether `p` occurs anywhere in `s` (`str::contains`).
pub fn has_substring(s: &[char], p: &[char]) -> (b: bool)
    ensures
        b == contains(s@, p@),
{
    match find_from(s, p, 0) {
        Some(_) => true,
        None => false,
    }
}

/// The last position where `p` occurs in `s` (`str::rfind`).
pub fn rfind(s: &[char], p: &[char]) -> (r: Option<usize>)
    ensures
        match r {
            Some(i) => occurs_at(s@, p@, i as int) && forall|k: int| i < k ==> !occurs_at(s@, p@, k),
            None => forall|k: int| !occurs_at(s@, p@, k),
        },
{
    if p.len() > s.len() {
        return None;
    }
    let mut i = s.len() - p.len();
    loop
        invariant
            i <= s.len() - p.len(),
            p.len() <= s.len(),
            forall|k: int| i < k ==> !occurs_at(s@, p@, k),
        decreases i,
    {
        if occurs_at_exec(s, p, i) {
            return Some(i);
        }
        if i == 0 {
            return None;
        }
        i -= 1;
    }
}

/// `char::is_whitespace`.
pub fn is_ws_exec(c: char) -> (b: bool)
    ensures
        b == is_ws(c),
{
    let u = c as u32;
    (9 <= u && u <= 13) || u == 32 || u == 0x85 || u == 0xa0 || u == 0x1680 || (0x2000 <= u && u
        <= 0x200a) || u == 0x2028 || u == 0x2029 || u == 0x202f || u == 0x205f || u == 0x3000
}

proof fn lemma_trim_start_skip(s: Seq<char>, i: int)
    requires
        0 <= i < s.len(),
        is_ws(s[i]),
    ensures
        trim_start(s.skip(i)) == trim_start(s.skip(i + 1)),
{
    assert(s.skip(i).drop_first() =~= s.skip(i + 1));
}

proof fn lemma_trim_end_take(s: Seq<char>, i: int)
    requires
        0 < i <= s.len(),
        is_ws(s[i - 1]),
    ensures
        trim_end(s.take(i)) == trim_end(s.take(i - 1)),
{
    assert(s.take(i).drop_last() =~= s.take(i - 1));
}

/// The bounds `(a, b)` of `str::trim`: the trimmed text is `s[a..b]`.
pub fn trim_bounds(s: &[char]) -> (r: (usize, usize))
    ensures
        r.0 <= r.1 <= s.len(),
        s@.subrange(r.0 as int, r.1 as int) == trim(s@),
{
    let mut a: usize = 0;
    assert(s@.skip(0) =~= s@);
    while a < s.len() && is_ws_exec(s[a])
        invariant
            a <= s.len(),
            trim_start(s@) == trim_start(s@.skip(a as int)),
        decreases s.len() - a,
    {
        proof {
            lemma_trim_start_skip(s@, a as int);
        }
        a += 1;
    }
    let ghost t = s@.skip(a as int);
    assert(trim_start(s@) == t);
    let mut b: usize = s.len();
    assert(t.take(b - a) =~= t);
    while b > a && is_ws_exec(s[b - 1])
        invariant
            a <= b <= s.len(),
            trim_end(t) == trim_end(t.take(b - a)),
            t == s@.skip(a as int),
        decreases b,
    {
        proof {
            lemma_trim_end_take(t, b - a);
        }
        b -= 1;
    }
    assert(t.take(b - a) =~= s@.subrange(a as int, b as int));
    assert(s@.skip(a as int).len() == s.len() - a);
    assert(t.take(s.len() - a) =~= t);
    (a, b)
}

/// `str::trim`.
pub fn trimmed(s: &[char]) -> (r: Vec<char>)
    ensures
        r@ == trim(s@),
{
    let (a, b) = trim_bounds(s);
    copy_range(s, a, b)
}

/// The characters `s[a..b]`.
pub fn copy_range(s: &[char], a: usize, b: usize) -> (r: Vec<char>)
    requires
        a <= b <= s.len(),
    ensures
        r@ == s@.subrange(a as int, b as int),
{
    let mut r: Vec<char> = Vec::new();
    let mut i = a;
    while i < b
        invariant
            a <= i <= b <= s.len(),
            r@ == s@.subrange(a as int, i as int),
        decreases b - i,
    {
        r.push(s[i]);
        i += 1;
        assert(s@.subrange(a as int, i as int) == s@.subrange(a as int, i - 1).push(s@[i - 1]));
    }
    r
}

/// `usize::to_string`.
pub fn decimal_of(n: usize) -> (r: Vec<char>)
    ensures
        r@ == decimal(n as nat),
    decreases n,
{
    let d = n % 10;
    let c = if d == 0 {
        '0'
    } else if d == 1 {
        '1'
    } else if d == 2 {
        '2'
    } else if d == 3 {
        '3'
    } else if d == 4 {
        '4'
    } else if d == 5 {
        '5'
    } else if d == 6 {
        '6'
    } else if d == 7 {
        '7'
    } else if d == 8 {
        '8'
    } else {
        '9'
    };
    if n < 10 {
        vec![c]
    } else {
        let mut r = decimal_of(n / 10);
        r.push(c);
        r
    }
}

/// The decimal digits of a `u64`.
pub fn decimal_u64(n: u64) -> (r: Vec<char>)
    ensures
        r@ == decimal(n as nat),
    decreases n,
{
    let d = n % 10;
    let c = if d == 0 {
        '0'
    } else if d == 1 {
        '1'
    } else if d == 2 {
        '2'
    } else if d == 3 {
        '3'
    } else if d == 4 {
        '4'
    } else if d == 5 {
        '5'
    } else if d == 6 {
        '6'
    } else if d == 7 {
        '7'
    } else if d == 8 {
        '8'
    } else {
        '9'
    };
    if n < 10 {
        vec![c]
    } else {
        let mut r = decimal_u64(n / 10);
        r.push(c);
        r
    }
}

/// Every `a` in `s` replaced by `b`.
pub fn replace_char_exec(s: &[char], a: char, b: char) -> (r: Vec<char>)
    ensures
        r@ == replace_char(s@, a, b),
{
    let mut r: Vec<char> = Vec::new();
    let mut i: usize = 0;
    while i < s.len()
        invariant
            i <= s.len(),
            r@ =~= replace_char(s@.take(i as int), a, b),
        decreases s.len() - i,
    {
        let c = s[i];
        r.push(if c == a { b } else { c });
        i += 1;
        assert(s@.take(i as int) =~= s@.take(i - 1).push(c));
    }
    assert(s@.take(s.len() as int) =~= s@);
    r
}

/// `s` without the prefix `p`, if it has it.
pub fn strip_prefix_exec(s: &[char], p: &[char]) -> (r: Option<Vec<char>>)
    ensures
        match r {
            Some(t) => strip_prefix(s@, p@) == Some(t@),
            None => strip_prefix(s@, p@) is None,
        },
{
    if has_prefix(s, p) {
        Some(copy_range(s, p.len(), s.len()))
    } else {
        None
    }
}

/// `s` without the suffix `p`, if it has it.
pub fn strip_suffix_exec(s: &[char], p: &[char]) -> (r: Option<Vec<char>>)
    ensures
        match r {
            Some(t) => strip_suffix(s@, p@) == Some(t@),
            None => strip_suffix(s@, p@) is None,
        },
{
    if has_suffix(s, p) {
        Some(copy_range(s, 0, s.len() - p.len()))
    } else {
        None
    }
}

/// `s` from position `i` on with each occurrence of `p` replaced by `r`,
/// left to right and without overlap (`str::replace` on that part).
pub open spec fn replace_from(s: Seq<char>, p: Seq<char>, r: Seq<char>, i: int) -> Seq<char>
    decreases s.len() - i,
{
    if i < 0 || i > s.len() {
        Seq::empty()
    } else if p.len() == 0 {
        s.skip(i)
    } else {
        match find_at(s, p, i) {
            Some(j) => if i <= j && j + p.len() <= s.len() {
                s.subrange(i, j) + r + replace_from(s, p, r, j + p.len())
            } else {
                s.skip(i)
            },
            None => s.skip(i),
        }
    }
}

/// `s` with each occurrence of `p` replaced by `r` (`str::replace`).
pub open spec fn replace_all(s: Seq<char>, p: Seq<char>, r: Seq<char>) -> Seq<char> {
    replace_from(s, p, r, 0)
}

/// `s` with each occurrence of the non-empty `p` replaced by `r`.
pub fn replace_exec(s: &[char], p: &[char], r: &[char]) -> (out: Vec<char>)
    requires
        p.len() > 0,
    ensures
        out@ == replace_all(s@, p@, r@),
{
    let mut out: Vec<char> = Vec::new();
    let mut i: usize = 0;
    let mut done = false;
    while !done
        invariant
            p.len() > 0,
            i <= s.len(),
            done ==> out@ == replace_all(s@, p@, r@),
            !done ==> out@ + replace_from(s@, p@, r@, i as int) == replace_all(s@, p@, r@),
        decreases s.len() - i, if done { 0int } else { 1int },
    {
        match find_from(s, p, i) {
            Some(j) => {
                let ghost o0 = out@;
                let part = copy_range(s, i, j);
                push_all(&mut out, part.as_slice());
                push_all(&mut out, r);
                assert(replace_from(s@, p@, r@, i as int) == s@.subrange(i as int, j as int) + r@
                    + replace_from(s@, p@, r@, j + p.len()));
                assert(out@ =~= o0 + s@.subrange(i as int, j as int) + r@);
                i = j + p.len();
            },
            None => {
                let ghost o0 = out@;
                let part = copy_range(s, i, s.len());
                push_all(&mut out, part.as_slice());
                assert(part@ =~= s@.skip(i as int));
                done = true;
            },
        }
    }
    out
}

/// `s` without its leading whitespace (`str::trim_start`).
pub fn trim_start_exec(s: &[char]) -> (r: Vec<char>)
    ensures
        r@ == trim_start(s@),
{
    let mut a: usize = 0;
    assert(s@.skip(0) =~= s@);
    while a < s.len() && is_ws_exec(s[a])
        invariant
            a <= s.len(),
            trim_start(s@) == trim_start(s@.skip(a as int)),
        decreases s.len() - a,
    {
        assert(s@.skip(a as int).drop_first() =~= s@.skip(a + 1));
        a += 1;
    }
    let r = copy_range(s, a, s.len());
    assert(r@ =~= s@.skip(a as int));
    r
}

/// The parts of `s` separated by `sep` (`str::split`).
pub fn split_exec(s: &[char], sep: &[char]) -> (r: Vec<Vec<char>>)
    requires
        sep@.len() > 0,
    ensures
        r@.len() == split_str(s@, sep@).len(),
        forall|i: int| 0 <= i < r@.len() ==> #[trigger] r@[i]@ == split_str(s@, sep@)[i],
{
    let mut r: Vec<Vec<char>> = Vec::new();
    let ghost mut done: Seq<Seq<char>> = Seq::empty();
    let mut pos: usize = 0;
    assert(s@.skip(0) =~= s@);
    loop
        invariant
            pos <= s.len(),
            sep@.len() > 0,
            split_str(s@, sep@) == done + split_str(s@.skip(pos as int), sep@),
            r@.len() == done.len(),
            forall|i: int| 0 <= i < r@.len() ==> #[trigger] r@[i]@ == done[i],
        decreases s.len() - pos,
    {
        let ghost t = s@.skip(pos as int);
        match find_from(s, sep, pos) {
            Some(i) => {
                proof {
                    lemma_find_at_shift(s@, sep@, pos as int, 0);
                }
                assert(find_at(t, sep@, 0) == Some(i - pos));
                let part = copy_range(s, pos, i);
                assert(t.take(i - pos) =~= part@);
                assert(t.skip(i - pos + sep.len()) =~= s@.skip(i + sep.len()));
                proof {
                    done = done.push(part@);
                }
                r.push(part);
                pos = i + sep.len();
            },
            None => {
                proof {
                    lemma_find_at_shift(s@, sep@, pos as int, 0);
                }
                let part = copy_range(s, pos, s.len());
                assert(t =~= part@);
                proof {
                    done = done.push(part@);
                }
                r.push(part);
                assert(split_str(s@, sep@) =~= done);
                return r;
            },
        }
    }
}

/// `find_at` on a suffix of `s` is `find_at` on `s`, shifted.
pub proof fn lemma_find_at_shift(s: Seq<char>, p: Seq<char>, pos: int, i: int)
    requires
        0 <= pos <= s.len(),
        0 <= i,
    ensures
        find_at(s.skip(pos), p, i) == (match find_at(s, p, pos + i) {
            Some(k) => Some(k - pos),
            None => None,
        }),
    decreases s.len() + 1 - (pos + i),
{
    let t = s.skip(pos);
    if i > t.len() {
    } else {
        if occurs_at(t, p, i) {
            assert(t.subrange(i, i + p.len()) =~= s.subrange(pos + i, pos + i + p.len()));
        } else {
            if occurs_at(s, p, pos + i) {
                assert(t.subrange(i, i + p.len()) =~= s.subrange(pos + i, pos + i + p.len()));
            }
            lemma_find_at_shift(s, p, pos, i + 1);
        }
    }
}

/// The parts joined with `sep` between them.
pub fn join_exec(parts: &[Vec<char>], n: usize, sep: &[char]) -> (r: Vec<char>)
    requires
        n <= parts@.len(),
    ensures
        r@ == join(parts@.take(n as int).map_values(|v: Vec<char>| v@), sep@),
{
    let ghost ps = parts@.map_values(|v: Vec<char>| v@);
    let mut r: Vec<char> = Vec::new();
    let mut i: usize = 0;
    while i < n
        invariant
            i <= n <= parts@.len(),
            ps == parts@.map_values(|v: Vec<char>| v@),
            r@ == join(ps.take(i as int), sep@),
        decreases n - i,
    {
        assert(ps.take(i + 1).drop_last() =~= ps.take(i as int));
        if i > 0 {
            push_all(&mut r, sep);
        }
        push_all(&mut r, parts[i].as_slice());
        i += 1;
    }
    assert(parts@.take(n as int).map_values(|v: Vec<char>| v@) =~= ps.take(n as int));
    r
}

/// Whether `x` is one of `files`.
pub fn member(files: &[String], x: &String) -> (b: bool)
    ensures
        b == views(files@).contains(x@),
{
    let mut i: usize = 0;
    while i < files.len()
        invariant
            i <= files.len(),
            forall|k: int| 0 <= k < i ==> files@[k]@ != x@,
        decreases files.len() - i,
    {
        if files[i] == *x {
            assert(views(files@)[i as int] == x@);
            return true;
        }
        i += 1;
    }
    proof {
        if views(files@).contains(x@) {
            let k = choose|k: int| 0 <= k < views(files@).len() && views(files@)[k] == x@;
            assert(files@[k]@ == x@);
        }
    }
    false
}

/// Whether the text `s` is exactly `lit`.
pub fn str_is(s: &str, lit: &str) -> (b: bool)
    ensures
        b == (s@ == lit@),
{
    let a = chars_of(s);
    let c = chars_of(lit);
    chars_eq(a.as_slice(), c.as_slice())
}

/// Two character sequences are equal.
pub fn chars_eq(a: &[char], b: &[char]) -> (r: bool)
    ensures
        r == (a@ == b@),
{
    if a.len() != b.len() {
        return false;
    }
    let r = occurs_at_exec(a, b, 0);
    assert(a@.subrange(0, a@.len() as int) =~= a@);
    r
}

/// The characters of each of `items`.
pub fn texts_of(items: &[String]) -> (r: Vec<Vec<char>>)
    ensures
        r@.map_values(|x: Vec<char>| x@) == views(items@),
{
    let mut r: Vec<Vec<char>> = Vec::new();
    let mut i: usize = 0;
    while i < items.len()
        invariant
            i <= items@.len(),
            r@.map_values(|x: Vec<char>| x@) == views(items@).take(i as int),
        decreases items@.len() - i,
    {
        let c = chars_of(items[i].as_str());
        assert(c@ == views(items@)[i as int]);
        let ghost r0 = r@.map_values(|x: Vec<char>| x@);
        r.push(c);
        assert(r@.map_values(|x: Vec<char>| x@) =~= r0.push(c@));
        assert(views(items@).take(i + 1) =~= views(items@).take(i as int).push(views(items@)[i as int]));
        i += 1;
    }
    assert(views(items@).take(i as int) =~= views(items@));
    r
}

/// What `std::str::from_utf8` gives for `bytes`: the text they encode,
/// if they are valid UTF-8.
pub open spec fn utf8_of(bytes: Seq<u8>) -> Option<Seq<char>> {
    if vstd::utf8::valid_utf8(bytes) {
        Some(vstd::utf8::decode_utf8(bytes))
    } else {
        None
    }
}

/// Wraps `std::str::from_utf8`: the characters of `bytes` if they are
/// valid UTF-8 (see `utf8_of`).
#[verifier::external_body]
pub(crate) fn decode_utf8(bytes: &[u8]) -> (r: Option<Vec<char>>)
    ensures
        r matches Some(v) ==> utf8_of(bytes@) == Some(v@),
        r is None ==> utf8_of(bytes@) is None,
{
    std::str::from_utf8(bytes).ok().map(|s| s.chars().collect())
}

/// `s` without any run of `c` at its end (`str::trim_end_matches`).
pub open spec fn trim_end_char(s: Seq<char>, c: char) -> Seq<char>
    decreases s.len(),
{
    if s.len() > 0 && s.last() == c {
        trim_end_char(s.drop_last(), c)
    } else {
        s
    }
}

/// `s` without any run of `c` at its start (`str::trim_start_matches`).
pub open spec fn trim_start_char(s: Seq<char>, c: char) -> Seq<char>
    decreases s.len(),
{
    if s.len() > 0 && s[0] == c {
        trim_start_char(s.drop_first(), c)
    } else {
        s
    }
}

/// A quote character.
pub open spec fn is_quote(c: char) -> bool {
    c == '\'' || c == '"'
}

/// `s` without quote characters at either end.
pub open spec fn trim_quotes(s: Seq<char>) -> Seq<char>
    decreases s.len(),
{
    if s.len() > 0 && is_quote(s[0]) {
        trim_quotes(s.drop_first())
    } else if s.len() > 0 && is_quote(s.last()) {
        trim_quotes(s.drop_last())
    } else {
        s
    }
}

/// `s` without any run of `c` at either end (`str::trim_matches`).
pub open spec fn trim_char(s: Seq<char>, c: char) -> Seq<char> {
    trim_end_char(trim_start_char(s, c), c)
}

/// `trim_end_char`.
pub fn trim_end_char_exec(s: &[char], c: char) -> (r: Vec<char>)
    ensures
        r@ == trim_end_char(s@, c),
{
    let mut b: usize = s.len();
    assert(s@.take(b as int) =~= s@);
    while b > 0 && s[b - 1] == c
        invariant
            b <= s@.len(),
            trim_end_char(s@, c) == trim_end_char(s@.take(b as int), c),
        decreases b,
    {
        assert(s@.take(b as int).drop_last() =~= s@.take(b - 1));
        b -= 1;
    }
    let r = copy_range(s, 0, b);
    assert(r@ =~= s@.take(b as int));
    r
}

/// `trim_start_char`.
pub fn trim_start_char_exec(s: &[char], c: char) -> (r: Vec<char>)
    ensures
        r@ == trim_start_char(s@, c),
{
    let mut a: usize = 0;
    assert(s@.skip(0) =~= s@);
    while a < s.len() && s[a] == c
        invariant
            a <= s@.len(),
            trim_start_char(s@, c) == trim_start_char(s@.skip(a as int), c),
        decreases s@.len() - a,
    {
        assert(s@.skip(a as int).drop_first() =~= s@.skip(a + 1));
        a += 1;
    }
    let r = copy_range(s, a, s.len());
    assert(r@ =~= s@.skip(a as int));
    r
}

/// `trim_char`.
pub fn trim_char_exec(s: &[char], c: char) -> (r: Vec<char>)
    ensures
        r@ == trim_char(s@, c),
{
    let t = trim_start_char_exec(s, c);
    trim_end_char_exec(t.as_slice(), c)
}

/// `trim_quotes`.
pub fn trim_quotes_exec(s: &[char]) -> (r: Vec<char>)
    ensures
        r@ == trim_quotes(s@),
{
    let mut a: usize = 0;
    let mut b: usize = s.len();
    assert(s@.subrange(0, s@.len() as int) =~= s@);
    while a < b && (s[a] == '\'' || s[a] == '"' || s[b - 1] == '\'' || s[b - 1] == '"')
        invariant
            a <= b <= s@.len(),
            trim_quotes(s@) == trim_quotes(s@.subrange(a as int, b as int)),
        decreases b - a,
    {
        if s[a] == '\'' || s[a] == '"' {
            assert(s@.subrange(a as int, b as int).drop_first() =~= s@.subrange(a + 1, b as int));
            a += 1;
        } else {
            assert(s@.subrange(a as int, b as int).drop_last() =~= s@.subrange(a as int, b - 1));
            b -= 1;
        }
    }
    copy_range(s, a, b)
}

} // verus!
