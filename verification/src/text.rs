//! Character-sequence helpers shared by the rest of the library: Unicode
//! whitespace and trimming, prefix / suffix / substring tests, and building
//! `String`s from character vectors.

use vstd::prelude::*;

verus! {

broadcast use vstd::string::group_string_axioms;

/// `String::push`: appends one character at the end of the string.
#[verifier::external_body]
pub(crate) fn push_char(s: &mut String, c: char)
    ensures
        final(s)@ == old(s)@.push(c),
{
    s.push(c);
}

/// Collects the characters of `s` into a vector.
pub fn chars_of(s: &str) -> (v: Vec<char>)
    ensures
        v@ == s@,
{
    let mut v: Vec<char> = Vec::new();
    for c in it: s.chars()
        invariant
            v@ == it.seq().take(it.index() as int),
            it.seq() == s@,
    {
        v.push(c);
    }
    v
}

/// A `String` holding a copy of `s`.
pub fn owned(s: &str) -> (r: String)
    ensures
        r@ == s@,
{
    s.to_owned()
}

/// Appends `v[lo..hi]` to `s`.
pub fn append_chars(s: &mut String, v: &Vec<char>, lo: usize, hi: usize)
    requires
        lo <= hi <= v@.len(),
    ensures
        final(s)@ == old(s)@ + v@.subrange(lo as int, hi as int),
{
    let ghost start = s@;
    let mut i = lo;
    while i < hi
        invariant
            lo <= i <= hi <= v@.len(),
            s@ == start + v@.subrange(lo as int, i as int),
        decreases hi - i,
    {
        push_char(s, v[i]);
        assert(v@.subrange(lo as int, i + 1) =~= v@.subrange(lo as int, i as int).push(v@[i as int]));
        i = i + 1;
    }
}

/// A new `String` holding the characters `v[lo..hi]`.
pub fn string_from_chars(v: &Vec<char>, lo: usize, hi: usize) -> (s: String)
    requires
        lo <= hi <= v@.len(),
    ensures
        s@ == v@.subrange(lo as int, hi as int),
{
    let mut s = String::new();
    append_chars(&mut s, v, lo, hi);
    assert(Seq::<char>::empty() + v@.subrange(lo as int, hi as int) =~= v@.subrange(
        lo as int,
        hi as int,
    ));
    s
}

/// Appends the whole of `t` to `s`.
pub fn append_str(s: &mut String, t: &str)
    ensures
        final(s)@ == old(s)@ + t@,
{
    s.append(t);
}

/// The views of a sequence of strings.
pub open spec fn views(v: Seq<String>) -> Seq<Seq<char>> {
    v.map_values(|s: String| s@)
}

pub proof fn lemma_views_push(v: Seq<String>, s: String)
    ensures
        views(v.push(s)) == views(v).push(s@),
{
    assert(views(v.push(s)) =~= views(v).push(s@));
}

// ---------------------------------------------------------------------------
// Whitespace and trimming
// ---------------------------------------------------------------------------

/// Unicode `White_Space`, the property that `char::is_whitespace` tests.
pub open spec fn is_whitespace(c: char) -> bool {
    ||| ('\u{9}' <= c && c <= '\u{d}')
    ||| c == ' '
    ||| c == '\u{85}'
    ||| c == '\u{a0}'
    ||| c == '\u{1680}'
    ||| ('\u{2000}' <= c && c <= '\u{200a}')
    ||| c == '\u{2028}'
    ||| c == '\u{2029}'
    ||| c == '\u{202f}'
    ||| c == '\u{205f}'
    ||| c == '\u{3000}'
}

/// Executable test for [`is_whitespace`].
pub fn is_whitespace_char(c: char) -> (b: bool)
    ensures
        b == is_whitespace(c),
{
    ('\u{9}' <= c && c <= '\u{d}') || c == ' ' || c == '\u{85}' || c == '\u{a0}' || c
        == '\u{1680}' || ('\u{2000}' <= c && c <= '\u{200a}') || c == '\u{2028}' || c
        == '\u{2029}' || c == '\u{202f}' || c == '\u{205f}' || c == '\u{3000}'
}

/// `s` without its leading whitespace.
pub open spec fn trim_start(s: Seq<char>) -> Seq<char>
    decreases s.len(),
{
    if s.len() > 0 && is_whitespace(s[0]) {
        trim_start(s.drop_first())
    } else {
        s
    }
}

/// `s` without its trailing whitespace.
pub open spec fn trim_end(s: Seq<char>) -> Seq<char>
    decreases s.len(),
{
    if s.len() > 0 && is_whitespace(s.last()) {
        trim_end(s.drop_last())
    } else {
        s
    }
}

/// `s` without leading and trailing whitespace, as `str::trim` gives it.
pub open spec fn trim(s: Seq<char>) -> Seq<char> {
    trim_end(trim_start(s))
}

/// Trimming the start drops a prefix of whitespace, which stops at or before
/// any character that is not whitespace.
pub proof fn lemma_trim_start_skip(s: Seq<char>, i: int) -> (k: int)
    requires
        0 <= i < s.len(),
        !is_whitespace(s[i]),
    ensures
        0 <= k <= i,
        trim_start(s) == s.skip(k),
    decreases s.len(),
{
    if is_whitespace(s[0]) {
        assert(s.drop_first()[i - 1] == s[i]);
        let k = lemma_trim_start_skip(s.drop_first(), i - 1);
        assert(s.drop_first().skip(k) =~= s.skip(k + 1));
        k + 1
    } else {
        assert(s.skip(0) =~= s);
        0
    }
}

/// Trimming the end drops a suffix of whitespace, which stops after any
/// character that is not whitespace.
pub proof fn lemma_trim_end_take(s: Seq<char>, i: int) -> (m: int)
    requires
        0 <= i < s.len(),
        !is_whitespace(s[i]),
    ensures
        i < m <= s.len(),
        trim_end(s) == s.take(m),
    decreases s.len(),
{
    if is_whitespace(s.last()) {
        assert(s.drop_last()[i] == s[i]);
        let m = lemma_trim_end_take(s.drop_last(), i);
        assert(s.drop_last().take(m) =~= s.take(m));
        m
    } else {
        assert(s.take(s.len() as int) =~= s);
        s.len() as int
    }
}

/// The bounds of `v[lo..hi]` once trimmed: `v[a..b]` is `trim(v[lo..hi])`.
pub fn trim_bounds(v: &Vec<char>, lo: usize, hi: usize) -> (r: (usize, usize))
    requires
        lo <= hi <= v@.len(),
    ensures
        lo <= r.0 <= r.1 <= hi,
        v@.subrange(r.0 as int, r.1 as int) == trim(v@.subrange(lo as int, hi as int)),
{
    let mut a = lo;
    while a < hi && is_whitespace_char(v[a])
        invariant
            lo <= a <= hi <= v@.len(),
            trim_start(v@.subrange(lo as int, hi as int)) == trim_start(
                v@.subrange(a as int, hi as int),
            ),
        decreases hi - a,
    {
        assert(v@.subrange(a as int, hi as int).drop_first() =~= v@.subrange(a + 1, hi as int));
        a = a + 1;
    }
    assert(trim_start(v@.subrange(a as int, hi as int)) == v@.subrange(a as int, hi as int));
    let mut b = hi;
    while b > a && is_whitespace_char(v[b - 1])
        invariant
            lo <= a <= b <= hi <= v@.len(),
            trim(v@.subrange(lo as int, hi as int)) == trim_end(v@.subrange(a as int, b as int)),
        decreases b - a,
    {
        assert(v@.subrange(a as int, b as int).drop_last() =~= v@.subrange(a as int, b - 1));
        b = b - 1;
    }
    (a, b)
}

/// The trimmed characters of `s`.
pub fn trim_chars(s: &str) -> (v: Vec<char>)
    ensures
        v@ == trim(s@),
{
    let all = chars_of(s);
    let (a, b) = trim_bounds(&all, 0, all.len());
    assert(all@.subrange(0, all@.len() as int) =~= all@);
    let mut v: Vec<char> = Vec::new();
    let mut i = a;
    while i < b
        invariant
            a <= i <= b <= all@.len(),
            v@ == all@.subrange(a as int, i as int),
        decreases b - i,
    {
        v.push(all[i]);
        assert(all@.subrange(a as int, i + 1) =~= all@.subrange(a as int, i as int).push(
            all@[i as int],
        ));
        i = i + 1;
    }
    v
}

/// Whether `s` is empty once trimmed (`s.trim().is_empty()`).
pub fn is_blank(s: &str) -> (b: bool)
    ensures
        b == (trim(s@).len() == 0),
{
    let v = trim_chars(s);
    v.len() == 0
}

// ---------------------------------------------------------------------------
// Prefix, suffix and substring tests
// ---------------------------------------------------------------------------

/// `t` occurs in `s` as a contiguous run of characters.
pub open spec fn contains_seq(s: Seq<char>, t: Seq<char>) -> bool {
    exists|i: int| 0 <= i && i + t.len() <= s.len() && #[trigger] s.subrange(i, i + t.len()) == t
}

/// Whether `v[at..at + t.len()]` equals `t`.
pub fn matches_at(v: &Vec<char>, at: usize, t: &Vec<char>) -> (b: bool)
    requires
        at + t@.len() <= v@.len(),
    ensures
        b == (v@.subrange(at as int, at + t@.len()) == t@),
{
    let n = v.len();
    let mut k: usize = 0;
    while k < t.len()
        invariant
            at + t@.len() <= v@.len(),
            n == v@.len(),
            k <= t@.len(),
            forall|j: int| 0 <= j < k ==> v@[at + j] == t@[j],
        decreases t@.len() - k,
    {
        assert(at + k < v@.len());
        if v[at + k] != t[k] {
            assert(v@.subrange(at as int, at + t@.len())[k as int] != t@[k as int]);
            return false;
        }
        k = k + 1;
    }
    assert(v@.subrange(at as int, at + t@.len()) =~= t@);
    true
}

/// `str::starts_with` for a string pattern.
pub fn starts_with(s: &str, p: &str) -> (b: bool)
    ensures
        b == p@.is_prefix_of(s@),
{
    let v = chars_of(s);
    let t = chars_of(p);
    if t.len() > v.len() {
        return false;
    }
    let r = matches_at(&v, 0, &t);
    assert(r ==> p@.is_prefix_of(s@));
    assert(p@.is_prefix_of(s@) ==> v@.subrange(0, t@.len() as int) =~= t@);
    r
}

/// `str::ends_with` for a string pattern.
pub fn ends_with(s: &str, p: &str) -> (b: bool)
    ensures
        b == p@.is_suffix_of(s@),
{
    let v = chars_of(s);
    let t = chars_of(p);
    if t.len() > v.len() {
        return false;
    }
    let at = v.len() - t.len();
    let r = matches_at(&v, at, &t);
    assert(r ==> p@.is_suffix_of(s@));
    assert(p@.is_suffix_of(s@) ==> v@.subrange(at as int, v@.len() as int) =~= t@);
    r
}

/// `str::contains` for a string pattern.
pub fn contains(s: &str, p: &str) -> (b: bool)
    ensures
        b == contains_seq(s@, p@),
{
    let v = chars_of(s);
    let t = chars_of(p);
    if t.len() > v.len() {
        return false;
    }
    let last = v.len() - t.len();
    let mut i: usize = 0;
    while i <= last
        invariant
            last + t@.len() == v@.len(),
            v@ == s@,
            t@ == p@,
            i <= last,
            forall|j: int|
                0 <= j < i ==> #[trigger] v@.subrange(j, j + t@.len()) != t@,
        decreases last + 1 - i,
    {
        if matches_at(&v, i, &t) {
            assert(s@.subrange(i as int, i + p@.len()) == p@);
            return true;
        }
        if i == last {
            assert forall|j: int| 0 <= j && j + p@.len() <= s@.len() implies #[trigger] s@.subrange(
                j,
                j + p@.len(),
            ) != p@ by {
                assert(j <= last);
            }
            return false;
        }
        i = i + 1;
    }
    false
}

/// Whether two strings hold the same characters.
pub fn str_eq(a: &str, b: &str) -> (r: bool)
    ensures
        r == (a@ == b@),
{
    let v = chars_of(a);
    let w = chars_of(b);
    if v.len() != w.len() {
        return false;
    }
    let r = matches_at(&v, 0, &w);
    assert(v@.subrange(0, w@.len() as int) =~= v@);
    r
}


/// `t` occurs in `s` at index `i`.
pub open spec fn occurs_at(s: Seq<char>, t: Seq<char>, i: int) -> bool {
    0 <= i && i + t.len() <= s.len() && s.subrange(i, i + t.len()) == t
}

/// Index of the first occurrence of `t` in `s`, or -1.
pub open spec fn first_occurrence(s: Seq<char>, t: Seq<char>) -> int {
    if exists|i: int| occurs_at(s, t, i) {
        choose|i: int| occurs_at(s, t, i) && forall|j: int| 0 <= j < i ==> !occurs_at(s, t, j)
    } else {
        -1
    }
}

proof fn lemma_first_occurrence(s: Seq<char>, t: Seq<char>, i: int)
    requires
        occurs_at(s, t, i),
        forall|j: int| 0 <= j < i ==> !occurs_at(s, t, j),
    ensures
        first_occurrence(s, t) == i,
{
    let k = choose|k: int| occurs_at(s, t, k) && forall|j: int| 0 <= j < k ==> !occurs_at(s, t, j);
    assert(occurs_at(s, t, k) && forall|j: int| 0 <= j < k ==> !occurs_at(s, t, j));
    if k < i {
        assert(!occurs_at(s, t, k));
    } else if k > i {
        assert(!occurs_at(s, t, i));
    }
}

/// `s` with its first occurrence of `from` (if any) replaced by `to`, as
/// `str::replacen(from, to, 1)` gives it.
pub open spec fn replace_first(s: Seq<char>, from: Seq<char>, to: Seq<char>) -> Seq<char> {
    let i = first_occurrence(s, from);
    if i < 0 {
        s
    } else {
        s.take(i) + to + s.skip(i + from.len())
    }
}

/// Replaces the first occurrence of `from` in `s` by `to`; see
/// [`replace_first`]. `from` must not be empty.
pub fn replace_first_str(s: &str, from: &str, to: &str) -> (r: String)
    requires
        from@.len() > 0,
    ensures
        r@ == replace_first(s@, from@, to@),
{
    let v = chars_of(s);
    let f = chars_of(from);
    if f.len() > v.len() {
        proof {
            assert forall|j: int| !occurs_at(s@, from@, j) by {}
        }
        return owned(s);
    }
    let last = v.len() - f.len();
    let n = v.len();
    let mut i: usize = 0;
    while i <= last
        invariant
            last + f@.len() == v@.len(),
            n == v@.len(),
            v@ == s@,
            f@ == from@,
            i <= last,
            forall|j: int| 0 <= j < i ==> !occurs_at(s@, from@, j),
        decreases last + 1 - i,
    {
        if matches_at(&v, i, &f) {
            proof {
                lemma_first_occurrence(s@, from@, i as int);
            }
            let mut r = string_from_chars(&v, 0, i);
            append_str(&mut r, to);
            append_chars(&mut r, &v, i + f.len(), v.len());
            proof {
                assert(v@.subrange(0, i as int) =~= s@.take(i as int));
                assert(v@.subrange(i + f@.len(), v@.len() as int) =~= s@.skip(i + from@.len()));
            }
            return r;
        }
        if i == last {
            proof {
                assert forall|j: int| !occurs_at(s@, from@, j) by {
                    if 0 <= j && j + from@.len() <= s@.len() {
                        assert(j <= i);
                    }
                }
            }
            return owned(s);
        }
        i = i + 1;
    }
    owned(s)
}


// ---------------------------------------------------------------------------
// Lines
// ---------------------------------------------------------------------------

/// The pieces of `s` between newlines, as `str::split('\n')` yields them:
/// there is always at least one, and a trailing newline ends in an empty
/// last piece.
pub open spec fn split_newlines(s: Seq<char>) -> Seq<Seq<char>>
    decreases s.len(),
{
    if s.len() == 0 {
        seq![Seq::<char>::empty()]
    } else {
        let prev = split_newlines(s.drop_last());
        if s.last() == '\n' {
            prev.push(Seq::<char>::empty())
        } else {
            prev.update(prev.len() - 1, prev.last().push(s.last()))
        }
    }
}

pub proof fn lemma_split_newlines_len(s: Seq<char>)
    ensures
        split_newlines(s).len() >= 1,
    decreases s.len(),
{
    if s.len() > 0 {
        lemma_split_newlines_len(s.drop_last());
    }
}

/// The pieces of `s` between occurrences of `c`, as `str::split(c)` yields
/// them: always at least one, possibly empty.
pub open spec fn split_on(s: Seq<char>, c: char) -> Seq<Seq<char>>
    decreases s.len(),
{
    if s.len() == 0 {
        seq![Seq::<char>::empty()]
    } else {
        let prev = split_on(s.drop_last(), c);
        if s.last() == c {
            prev.push(Seq::<char>::empty())
        } else {
            prev.update(prev.len() - 1, prev.last().push(s.last()))
        }
    }
}

pub proof fn lemma_split_on_len(s: Seq<char>, c: char)
    ensures
        split_on(s, c).len() >= 1,
    decreases s.len(),
{
    if s.len() > 0 {
        lemma_split_on_len(s.drop_last(), c);
    }
}

/// The pieces of `s` between occurrences of `c`; see [`split_on`].
pub fn split_char(s: &str, c: char) -> (r: Vec<String>)
    ensures
        views(r@) == split_on(s@, c),
{
    let v = chars_of(s);
    let n = v.len();
    let mut r: Vec<String> = Vec::new();
    let mut start: usize = 0;
    let mut i: usize = 0;
    assert(v@.take(0) =~= Seq::<char>::empty());
    assert(v@.subrange(0, 0) =~= Seq::<char>::empty());
    while i < n
        invariant
            n == v@.len(),
            v@ == s@,
            start <= i <= n,
            split_on(v@.take(i as int), c) == views(r@).push(v@.subrange(start as int, i as int)),
        decreases n - i,
    {
        proof {
            assert(v@.take(i + 1).drop_last() =~= v@.take(i as int));
            assert(v@.take(i + 1).last() == v@[i as int]);
        }
        if v[i] == c {
            let piece = string_from_chars(&v, start, i);
            let ghost before = r@;
            r.push(piece);
            proof {
                lemma_views_push(before, piece);
                assert(v@.subrange(i + 1, i + 1) =~= Seq::<char>::empty());
            }
            start = i + 1;
        } else {
            proof {
                let prev = views(r@).push(v@.subrange(start as int, i as int));
                assert(v@.subrange(start as int, i as int).push(v@[i as int]) =~= v@.subrange(
                    start as int,
                    i + 1,
                ));
                assert(prev.update(prev.len() - 1, prev.last().push(v@[i as int])) =~= views(r@).push(
                    v@.subrange(start as int, i + 1),
                ));
            }
        }
        i = i + 1;
    }
    let last = string_from_chars(&v, start, n);
    let ghost before = r@;
    r.push(last);
    proof {
        lemma_views_push(before, last);
        assert(v@.take(n as int) =~= s@);
    }
    r
}

/// `p` without one trailing carriage return.
pub open spec fn strip_cr(p: Seq<char>) -> Seq<char> {
    if p.len() > 0 && p.last() == '\r' {
        p.drop_last()
    } else {
        p
    }
}

/// The lines of `s` as `str::lines` yields them: split at newlines, each
/// line that a newline ends without a trailing carriage return, and no
/// empty line after a final newline.
pub open spec fn str_lines(s: Seq<char>) -> Seq<Seq<char>> {
    let p = split_newlines(s);
    let body = Seq::new((p.len() - 1) as nat, |i: int| strip_cr(p[i]));
    if p.last().len() == 0 {
        body
    } else {
        body.push(p.last())
    }
}

/// The lines of `s`; see [`str_lines`].
pub fn lines_of(s: &str) -> (r: Vec<String>)
    ensures
        views(r@) == str_lines(s@),
{
    let v = chars_of(s);
    let n = v.len();
    let mut r: Vec<String> = Vec::new();
    let mut start: usize = 0;
    let mut i: usize = 0;
    let ghost mut done: Seq<Seq<char>> = seq![];
    assert(v@.take(0) =~= Seq::<char>::empty());
    assert(v@.subrange(0, 0) =~= Seq::<char>::empty());
    while i < n
        invariant
            n == v@.len(),
            v@ == s@,
            start <= i <= n,
            split_newlines(v@.take(i as int)) == done.push(v@.subrange(start as int, i as int)),
            views(r@) == Seq::new(done.len(), |k: int| strip_cr(done[k])),
        decreases n - i,
    {
        proof {
            assert(v@.take(i + 1).drop_last() =~= v@.take(i as int));
            assert(v@.take(i + 1).last() == v@[i as int]);
        }
        if v[i] == '\n' {
            let ghost piece = v@.subrange(start as int, i as int);
            let end = if i > start && v[i - 1] == '\r' {
                i - 1
            } else {
                i
            };
            let line = string_from_chars(&v, start, end);
            let ghost before = r@;
            r.push(line);
            proof {
                lemma_views_push(before, line);
                if i > start && v@[i - 1] == '\r' {
                    assert(piece.drop_last() =~= v@.subrange(start as int, i - 1));
                }
                assert(strip_cr(piece) == line@);
                done = done.push(piece);
                assert(views(r@) =~= Seq::new(done.len(), |k: int| strip_cr(done[k])));
                assert(v@.subrange(i + 1, i + 1) =~= Seq::<char>::empty());
            }
            start = i + 1;
        } else {
            proof {
                let prev = done.push(v@.subrange(start as int, i as int));
                assert(prev.last() == v@.subrange(start as int, i as int));
                assert(v@.subrange(start as int, i as int).push(v@[i as int]) =~= v@.subrange(
                    start as int,
                    i + 1,
                ));
                assert(prev.update(prev.len() - 1, prev.last().push(v@[i as int])) =~= done.push(
                    v@.subrange(start as int, i + 1),
                ));
            }
        }
        i = i + 1;
    }
    proof {
        assert(v@.take(n as int) =~= s@);
    }
    if start < n {
        let last = string_from_chars(&v, start, n);
        let ghost before = r@;
        r.push(last);
        proof {
            lemma_views_push(before, last);
        }
    }
    proof {
        let p = split_newlines(s@);
        assert(p == done.push(v@.subrange(start as int, n as int)));
        assert(p.len() - 1 == done.len());
        let body = Seq::new((p.len() - 1) as nat, |k: int| strip_cr(p[k]));
        assert(body =~= Seq::new(done.len(), |k: int| strip_cr(done[k])));
        if start < n {
            assert(views(r@) =~= body.push(p.last()));
        } else {
            assert(p.last().len() == 0);
        }
    }
    r
}


/// `parts` joined with `sep` between neighbours, as `[String]::join` does.
pub open spec fn join(parts: Seq<Seq<char>>, sep: Seq<char>) -> Seq<char>
    decreases parts.len(),
{
    if parts.len() == 0 {
        Seq::<char>::empty()
    } else if parts.len() == 1 {
        parts[0]
    } else {
        join(parts.drop_last(), sep) + sep + parts.last()
    }
}

/// Joins `parts[..n]` with `sep`; see [`join`].
pub fn join_prefix(parts: &[String], n: usize, sep: &str) -> (r: String)
    requires
        n <= parts@.len(),
    ensures
        r@ == join(views(parts@.take(n as int)), sep@),
{
    let mut r = String::new();
    let mut i: usize = 0;
    while i < n
        invariant
            i <= n <= parts@.len(),
            r@ == join(views(parts@.take(i as int)), sep@),
        decreases n - i,
    {
        proof {
            let vp = views(parts@.take(i + 1));
            assert(vp.drop_last() =~= views(parts@.take(i as int)));
            assert(vp.last() == parts@[i as int]@);
        }
        if i > 0 {
            append_str(&mut r, sep);
        } else {
            assert(views(parts@.take(0)) =~= Seq::<Seq<char>>::empty());
            assert(r@ =~= Seq::<char>::empty());
        }
        append_str(&mut r, parts[i].as_str());
        proof {
            if i == 0 {
                assert(r@ =~= views(parts@.take(1))[0]);
            }
        }
        i = i + 1;
    }
    r
}

/// Joins all of `parts` with `sep`; see [`join`].
pub fn join_strings(parts: &[String], sep: &str) -> (r: String)
    ensures
        r@ == join(views(parts@), sep@),
{
    let r = join_prefix(parts, parts.len(), sep);
    assert(parts@.take(parts@.len() as int) =~= parts@);
    r
}

} // verus!
