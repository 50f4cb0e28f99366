//! Framing of JSON in language-model replies: stripping markdown fences,
//! locating the JSON object inside surrounding prose, matching braces, and
//! closing the delimiters of a reply that was cut off.

use vstd::prelude::*;
use crate::text::{chars_of, string_from_chars, trim, trim_bounds};

verus! {

// ---------------------------------------------------------------------------
// The delimiter scan
// ---------------------------------------------------------------------------

/// What a left-to-right scan of JSON text knows after a prefix: inside a
/// string, right after a backslash inside a string, and the objects and
/// arrays still open, as their opening characters, innermost last.
pub struct ScanState {
    pub in_string: bool,
    pub escape_next: bool,
    pub open: Seq<char>,
}

/// The index of the last `c` in `s`, or -1 when there is none.
pub open spec fn last_index_of(s: Seq<char>, c: char) -> int
    decreases s.len(),
{
    if s.len() == 0 {
        -1
    } else if s.last() == c {
        s.len() - 1
    } else {
        last_index_of(s.drop_last(), c)
    }
}

/// `s` without its last `c` (unchanged when it holds none).
pub open spec fn remove_last(s: Seq<char>, c: char) -> Seq<char> {
    let i = last_index_of(s, c);
    if i < 0 {
        s
    } else {
        s.remove(i)
    }
}

/// The scan after one more character. A closer outside a string closes the
/// innermost open object or array of its kind; one with none open is
/// ignored.
pub open spec fn scan_step(st: ScanState, c: char) -> ScanState {
    if st.escape_next {
        ScanState { escape_next: false, ..st }
    } else if c == '\\' && st.in_string {
        ScanState { escape_next: true, ..st }
    } else if c == '"' {
        ScanState { in_string: !st.in_string, ..st }
    } else if st.in_string {
        st
    } else if c == '{' || c == '[' {
        ScanState { open: st.open.push(c), ..st }
    } else if c == '}' {
        ScanState { open: remove_last(st.open, '{'), ..st }
    } else if c == ']' {
        ScanState { open: remove_last(st.open, '['), ..st }
    } else {
        st
    }
}

/// The scan state before any character.
pub open spec fn scan_start() -> ScanState {
    ScanState { in_string: false, escape_next: false, open: seq![] }
}

/// The scan of `t` continued from `st`.
pub open spec fn scan_from(st: ScanState, t: Seq<char>) -> ScanState
    decreases t.len(),
{
    if t.len() == 0 {
        st
    } else {
        scan_step(scan_from(st, t.drop_last()), t.last())
    }
}

/// The scan of `s` from the start.
pub open spec fn scan(s: Seq<char>) -> ScanState {
    scan_from(scan_start(), s)
}

/// The closer of an opener: `}` for `{`, `]` for `[`.
pub open spec fn closer_of(c: char) -> char {
    if c == '{' {
        '}'
    } else {
        ']'
    }
}

/// The closers of the openers `open`, innermost first.
pub open spec fn closers(open: Seq<char>) -> Seq<char>
    decreases open.len(),
{
    if open.len() == 0 {
        seq![]
    } else {
        seq![closer_of(open.last())] + closers(open.drop_last())
    }
}

/// What `auto_complete_json` appends: a quote if a string is open, then the
/// closers of the open objects and arrays, innermost first.
pub open spec fn completion(s: Seq<char>) -> Seq<char> {
    let st = scan(s);
    (if st.in_string { seq!['"'] } else { seq![] }) + closers(st.open)
}

proof fn lemma_closers_add(a: Seq<char>, b: Seq<char>)
    ensures
        closers(a + b) == closers(b) + closers(a),
    decreases b.len(),
{
    if b.len() == 0 {
        assert(a + b =~= a);
        assert(closers(b) =~= Seq::<char>::empty());
        assert(closers(b) + closers(a) =~= closers(a));
    } else {
        assert((a + b).drop_last() =~= a + b.drop_last());
        lemma_closers_add(a, b.drop_last());
        assert(closers(a + b) =~= seq![closer_of(b.last())] + (closers(b.drop_last()) + closers(a)));
    }
}

/// Removes the last `c` from `stack`, if it holds one.
fn remove_last_exec(stack: &mut Vec<char>, c: char)
    ensures
        final(stack)@ == remove_last(old(stack)@, c),
{
    let ghost s = stack@;
    let mut k = stack.len();
    assert(s.take(k as int) =~= s);
    while k > 0 && stack[k - 1] != c
        invariant
            s == stack@,
            k <= s.len(),
            last_index_of(s, c) == last_index_of(s.take(k as int), c),
        decreases k,
    {
        assert(s.take(k as int).drop_last() =~= s.take(k - 1));
        k = k - 1;
    }
    if k > 0 {
        assert(s.take(k as int).last() == c);
        stack.remove(k - 1);
    }
}

/// Closes the strings, arrays and objects left open in truncated JSON:
/// `json` followed by a quote if a string is open, then the closer of each
/// open array and object, innermost first, so that `[{"a":1` becomes
/// `[{"a":1}]`. Backslash escapes inside strings are honoured; a stray
/// closer with nothing of its kind open is ignored.
pub fn auto_complete_json(json: &str) -> (r: String)
    ensures
        r@ == json@ + completion(json@),
{
    let v = chars_of(json);
    let n = v.len();
    let mut in_string = false;
    let mut escape_next = false;
    let mut stack: Vec<char> = Vec::new();
    let mut i: usize = 0;
    while i < n
        invariant
            n == v@.len(),
            v@ == json@,
            i <= n,
            scan(v@.take(i as int)) == (ScanState { in_string, escape_next, open: stack@ }),
        decreases n - i,
    {
        let c = v[i];
        proof {
            assert(v@.take(i + 1).drop_last() =~= v@.take(i as int));
            assert(v@.take(i + 1).last() == c);
        }
        if escape_next {
            escape_next = false;
        } else if c == '\\' && in_string {
            escape_next = true;
        } else if c == '"' {
            in_string = !in_string;
        } else if !in_string {
            if c == '{' || c == '[' {
                stack.push(c);
            } else if c == '}' {
                remove_last_exec(&mut stack, '{');
            } else if c == ']' {
                remove_last_exec(&mut stack, '[');
            }
        }
        i = i + 1;
    }
    proof {
        assert(v@.take(n as int) =~= json@);
    }
    let mut r = string_from_chars(&v, 0, n);
    assert(v@.subrange(0, n as int) =~= json@);
    let ghost head = if in_string { seq!['"'] } else { Seq::<char>::empty() };
    if in_string {
        crate::text::push_char(&mut r, '"');
    }
    let ghost open = stack@;
    let mut j = stack.len();
    assert(open.skip(j as int) =~= Seq::<char>::empty());
    assert(r@ =~= json@ + head + closers(open.skip(j as int)));
    while j > 0
        invariant
            open == stack@,
            j <= open.len(),
            r@ == json@ + head + closers(open.skip(j as int)),
        decreases j,
    {
        let o = stack[j - 1];
        let cl = if o == '{' {
            '}'
        } else {
            ']'
        };
        crate::text::push_char(&mut r, cl);
        proof {
            assert(open.skip(j - 1) =~= seq![o] + open.skip(j as int));
            lemma_closers_add(seq![o], open.skip(j as int));
            assert(seq![o].drop_last() =~= Seq::<char>::empty());
            assert(closers(seq![o].drop_last()) =~= Seq::<char>::empty());
            assert(closers(seq![o]) =~= seq![closer_of(o)]);
        }
        j = j - 1;
    }
    assert(open.skip(0) =~= open);
    assert(r@ =~= json@ + completion(json@));
    r
}


proof fn lemma_scan_append(st: ScanState, s: Seq<char>, t: Seq<char>)
    ensures
        scan_from(st, s + t) == scan_from(scan_from(st, s), t),
    decreases t.len(),
{
    if t.len() == 0 {
        assert(s + t =~= s);
    } else {
        assert((s + t).drop_last() =~= s + t.drop_last());
        lemma_scan_append(st, s, t.drop_last());
    }
}

/// Every character of `s` opens an object or an array.
pub open spec fn openers_only(s: Seq<char>) -> bool {
    forall|i: int| 0 <= i < s.len() ==> (#[trigger] s[i]) == '{' || s[i] == '['
}

proof fn lemma_remove_last_openers(p: Seq<char>, c: char)
    requires
        openers_only(p),
    ensures
        openers_only(remove_last(p, c)),
{
    lemma_last_index_of(p, c);
    let k = last_index_of(p, c);
    if k >= 0 {
        let r = p.remove(k);
        assert forall|i: int| 0 <= i < r.len() implies (#[trigger] r[i]) == '{' || r[i] == '[' by {
            if i < k {
                assert(r[i] == p[i]);
            } else {
                assert(r[i] == p[i + 1]);
            }
        }
    }
}

/// The scan holds only openers on its stack.
proof fn lemma_scan_openers(st: ScanState, t: Seq<char>)
    requires
        openers_only(st.open),
    ensures
        openers_only(scan_from(st, t).open),
    decreases t.len(),
{
    if t.len() > 0 {
        lemma_scan_openers(st, t.drop_last());
        let p = scan_from(st, t.drop_last()).open;
        let c = t.last();
        lemma_remove_last_openers(p, '{');
        lemma_remove_last_openers(p, '[');
        if c == '{' || c == '[' {
            assert forall|i: int| 0 <= i < p.push(c).len() implies (#[trigger] p.push(c)[i]) == '{'
                || p.push(c)[i] == '[' by {
                if i < p.len() {
                    assert(p.push(c)[i] == p[i]);
                }
            }
        }
    }
}

proof fn lemma_last_index_of(s: Seq<char>, c: char)
    ensures
        -1 <= last_index_of(s, c) < s.len(),
        last_index_of(s, c) >= 0 ==> s[last_index_of(s, c)] == c,
    decreases s.len(),
{
    if s.len() > 0 && s.last() != c {
        lemma_last_index_of(s.drop_last(), c);
    }
}

/// Appending the closers of the open objects and arrays, innermost first,
/// closes them all.
proof fn lemma_scan_closers(st: ScanState)
    requires
        !st.in_string,
        !st.escape_next,
        openers_only(st.open),
    ensures
        scan_from(st, closers(st.open)) == (ScanState { open: seq![], ..st }),
    decreases st.open.len(),
{
    let k = st.open;
    if k.len() == 0 {
        assert(k =~= Seq::<char>::empty());
        assert(closers(k) =~= Seq::<char>::empty());
        assert(scan_from(st, closers(k)) == st);
    } else {
        let x = k.last();
        let c = closer_of(x);
        let rest = closers(k.drop_last());
        lemma_scan_append(st, seq![c], rest);
        assert(seq![c].drop_last() =~= Seq::<char>::empty());
        assert(scan_from(st, seq![c].drop_last()) == st);
        assert(scan_from(st, seq![c]) == scan_step(st, c));
        assert(k.remove(k.len() - 1) =~= k.drop_last());
        let next = ScanState { open: k.drop_last(), ..st };
        assert(x == k[k.len() - 1]);
        if x == '{' {
            assert(remove_last(k, '{') == k.drop_last());
        } else {
            assert(remove_last(k, '[') == k.drop_last());
        }
        assert(scan_step(st, c) == next);
        assert forall|i: int| 0 <= i < k.drop_last().len() implies (#[trigger] k.drop_last()[i])
            == '{' || k.drop_last()[i] == '[' by {
            assert(k.drop_last()[i] == k[i]);
        }
        lemma_scan_closers(next);
    }
}

/// Completed JSON leaves nothing open: after `auto_complete_json` the scan
/// is back in its starting state, so completing again appends nothing. This
/// holds unless the text ends right after a backslash inside a string, where
/// the appended quote is itself escaped.
pub proof fn law_completion_closes_all(s: Seq<char>)
    requires
        !scan(s).escape_next,
    ensures
        scan(s + completion(s)) == scan_start(),
        completion(s + completion(s)) == Seq::<char>::empty(),
{
    let st = scan(s);
    let q: Seq<char> = if st.in_string { seq!['"'] } else { seq![] };
    let a = closers(st.open);
    assert(completion(s) == q + a);
    assert(s + completion(s) =~= (s + q) + a);
    lemma_scan_append(scan_start(), s + q, a);
    lemma_scan_append(scan_start(), s, q);
    assert(openers_only(scan_start().open));
    lemma_scan_openers(scan_start(), s);
    let st1 = scan_from(st, q);
    if st.in_string {
        assert(q.drop_last() =~= Seq::<char>::empty());
        assert(q.len() == 1 && q.last() == '"');
        assert(scan_from(st, q.drop_last()) == st);
        assert(st1 == ScanState { in_string: false, ..st });
    } else {
        assert(st1 == st);
    }
    lemma_scan_closers(st1);
    let done = s + completion(s);
    assert(scan(done) == scan_start());
    assert(closers(seq![]) =~= Seq::<char>::empty());
    assert(completion(done) =~= Seq::<char>::empty());
}

/// What is inside a string never opens or closes anything: while the scan is
/// inside a string, no character changes the open objects and arrays.
pub proof fn law_string_contents_inert(s: Seq<char>, c: char)
    requires
        scan(s).in_string,
    ensures
        scan(s.push(c)).open == scan(s).open,
{
    assert(s.push(c).drop_last() =~= s);
}

proof fn lemma_scan_run(s: Seq<char>, t: Seq<char>)
    requires
        scan(s).in_string,
        !scan(s).escape_next,
        forall|i: int| 0 <= i < t.len() ==> t[i] != '"' && t[i] != '\\',
    ensures
        scan(s + t) == scan(s),
    decreases t.len(),
{
    if t.len() > 0 {
        let u = t.drop_last();
        assert forall|i: int| 0 <= i < u.len() implies u[i] != '"' && u[i] != '\\' by {
            assert(u[i] == t[i]);
        }
        lemma_scan_run(s, u);
        assert((s + t).drop_last() =~= s + u);
        assert(t.last() == t[t.len() - 1]);
    } else {
        assert(s + t =~= s);
    }
}

/// Completing text cut inside a string does not depend on the string's
/// plain characters: text added inside an open string (holding no quote and
/// no backslash) leaves the completion unchanged, brackets and braces
/// included.
pub proof fn law_completion_ignores_string_text(s: Seq<char>, t: Seq<char>)
    requires
        scan(s).in_string,
        !scan(s).escape_next,
        forall|i: int| 0 <= i < t.len() ==> t[i] != '"' && t[i] != '\\',
    ensures
        completion(s + t) == completion(s),
{
    lemma_scan_run(s, t);
}

/// An escaped quote does not end a string: inside a string, a backslash
/// and a quote leave the scan inside it, with the same objects and arrays
/// open.
pub proof fn law_escaped_quote_stays_in_string(s: Seq<char>)
    requires
        scan(s).in_string,
        !scan(s).escape_next,
    ensures
        scan(s + seq!['\\', '"']) == scan(s),
{
    let t = seq!['\\', '"'];
    assert((s + t).drop_last() =~= s.push('\\'));
    assert(s.push('\\').drop_last() =~= s);
    assert((s + t).last() == '"');
    assert(scan(s.push('\\')) == scan_step(scan(s), '\\'));
    assert(scan(s + t) == scan_step(scan(s.push('\\')), '"'));
}

/// The newest opening is closed first: outside a string, completing text
/// that ends with `{` (or `[`) appends `}` (or `]`) before the closers the
/// text without it would get.
pub proof fn law_completion_closes_newest_first(s: Seq<char>, c: char)
    requires
        !scan(s).in_string,
        !scan(s).escape_next,
        c == '{' || c == '[',
    ensures
        completion(s.push(c)) == seq![if c == '{' { '}' } else { ']' }] + completion(s),
{
    assert(s.push(c).drop_last() =~= s);
    let o = scan(s).open.push(c);
    assert(o.drop_last() =~= scan(s).open);
    assert(completion(s.push(c)) =~= Seq::<char>::empty() + closers(o));
    assert(completion(s) =~= Seq::<char>::empty() + closers(scan(s).open));
}

/// Completion appends nothing exactly to text that leaves nothing open.
pub proof fn law_completion_empty_when_closed(s: Seq<char>)
    ensures
        completion(s) == Seq::<char>::empty() <==> (!scan(s).in_string && scan(s).open.len() == 0),
{
    let st = scan(s);
    if st.open.len() > 0 {
        assert(closers(st.open).len() > 0);
    }
    if !st.in_string && st.open.len() == 0 {
        assert(completion(s) =~= Seq::<char>::empty());
    }
    if st.in_string {
        assert(completion(s)[0] == '"');
    }
}

// ---------------------------------------------------------------------------
// Matching braces
// ---------------------------------------------------------------------------

/// The brace matcher's state after a prefix: inside a string, right after a
/// backslash in a string, and the brace depth (which may go negative).
pub struct BraceState {
    pub in_string: bool,
    pub escape_next: bool,
    pub depth: int,
}

pub open spec fn brace_step(st: BraceState, c: char) -> BraceState {
    if st.escape_next {
        BraceState { escape_next: false, ..st }
    } else if c == '\\' && st.in_string {
        BraceState { escape_next: true, ..st }
    } else if c == '"' {
        BraceState { in_string: !st.in_string, ..st }
    } else if st.in_string {
        st
    } else if c == '{' {
        BraceState { depth: st.depth + 1, ..st }
    } else if c == '}' {
        BraceState { depth: st.depth - 1, ..st }
    } else {
        st
    }
}

/// The brace matcher's state after `s`.
pub open spec fn brace_scan(s: Seq<char>) -> BraceState
    decreases s.len(),
{
    if s.len() == 0 {
        BraceState { in_string: false, escape_next: false, depth: 0 }
    } else {
        brace_step(brace_scan(s.drop_last()), s.last())
    }
}

/// The `}` at index `i` of `s` brings the depth back to zero.
pub open spec fn closes_at(s: Seq<char>, i: int) -> bool {
    let st = brace_scan(s.take(i));
    &&& 0 <= i < s.len()
    &&& s[i] == '}'
    &&& !st.escape_next
    &&& !st.in_string
    &&& st.depth == 1
}

/// What is inside a string never changes the brace depth.
pub proof fn law_brace_string_contents_inert(s: Seq<char>, c: char)
    requires
        brace_scan(s).in_string,
    ensures
        brace_scan(s.push(c)).depth == brace_scan(s).depth,
{
    assert(s.push(c).drop_last() =~= s);
}

/// An escaped quote does not end a string for the brace matcher either.
pub proof fn law_brace_escaped_quote_stays_in_string(s: Seq<char>)
    requires
        brace_scan(s).in_string,
        !brace_scan(s).escape_next,
    ensures
        brace_scan(s + seq!['\\', '"']) == brace_scan(s),
{
    let t = seq!['\\', '"'];
    assert((s + t).drop_last() =~= s.push('\\'));
    assert(s.push('\\').drop_last() =~= s);
    assert((s + t).last() == '"');
    assert(brace_scan(s.push('\\')) == brace_step(brace_scan(s), '\\'));
    assert(brace_scan(s + t) == brace_step(brace_scan(s.push('\\')), '"'));
}

proof fn lemma_brace_run(s: Seq<char>, t: Seq<char>)
    requires
        brace_scan(s).in_string,
        !brace_scan(s).escape_next,
        forall|i: int| 0 <= i < t.len() ==> t[i] != '"' && t[i] != '\\',
    ensures
        brace_scan(s + t) == brace_scan(s),
    decreases t.len(),
{
    if t.len() > 0 {
        let u = t.drop_last();
        assert forall|i: int| 0 <= i < u.len() implies u[i] != '"' && u[i] != '\\' by {
            assert(u[i] == t[i]);
        }
        lemma_brace_run(s, u);
        assert((s + t).drop_last() =~= s + u);
        assert(t.last() == t[t.len() - 1]);
    } else {
        assert(s + t =~= s);
    }
}

/// The first index at which `s` closes, if any.
#[verifier::opaque]
pub open spec fn closing_brace(s: Seq<char>) -> Option<int> {
    if exists|i: int| closes_at(s, i) {
        Some(choose|i: int| closes_at(s, i) && forall|j: int| 0 <= j < i ==> !closes_at(s, j))
    } else {
        None
    }
}

proof fn lemma_first_close(s: Seq<char>, i: int)
    requires
        closes_at(s, i),
        forall|j: int| 0 <= j < i ==> !closes_at(s, j),
    ensures
        closing_brace(s) == Some(i),
{
    reveal(closing_brace);
    let k = choose|k: int| closes_at(s, k) && forall|j: int| 0 <= j < k ==> !closes_at(s, j);
    assert(closes_at(s, k) && forall|j: int| 0 <= j < k ==> !closes_at(s, j));
    if k < i {
        assert(!closes_at(s, k));
    } else if k > i {
        assert(!closes_at(s, i));
    }
}

/// Braces inside a string are not counted: the object `{"<t>"}` (with `t`
/// holding no quote and no backslash, but any braces) closes at its own
/// last character, whatever follows it.
pub proof fn law_closing_brace_skips_strings(t: Seq<char>, rest: Seq<char>)
    requires
        forall|i: int| 0 <= i < t.len() ==> t[i] != '"' && t[i] != '\\',
    ensures
        closing_brace(seq!['{', '"'] + t + seq!['"', '}'] + rest) == Some(t.len() as int + 3),
{
    let s = seq!['{', '"'] + t + seq!['"', '}'] + rest;
    let h = seq!['{', '"'];
    let e: int = t.len() as int + 3;
    assert(seq!['{'].drop_last() =~= Seq::<char>::empty());
    assert(h.drop_last() =~= seq!['{']);
    let b0 = brace_scan(Seq::<char>::empty());
    assert(brace_scan(seq!['{']) == brace_step(b0, '{'));
    assert(brace_scan(h) == brace_step(brace_scan(seq!['{']), '"'));
    assert(brace_scan(h) == BraceState { in_string: true, escape_next: false, depth: 1 });
    assert forall|k: int| 0 <= k <= t.len() implies #[trigger] brace_scan(s.take(2 + k)) == brace_scan(h) by {
        assert forall|i: int| 0 <= i < t.take(k).len() implies t.take(k)[i] != '"' && t.take(k)[i] != '\\' by {
            assert(t.take(k)[i] == t[i]);
        }
        lemma_brace_run(h, t.take(k));
        assert(s.take(2 + k) =~= h + t.take(k));
    }
    let q = s.take(e - 1);
    assert(brace_scan(q) == brace_scan(h));
    assert(s.take(e).drop_last() =~= q);
    assert(s[e - 1] == '"');
    assert(s.take(e).last() == '"');
    assert(brace_scan(s.take(e)) == BraceState { in_string: false, escape_next: false, depth: 1 });
    assert(s[e] == '}');
    assert(closes_at(s, e));
    assert forall|j: int| 0 <= j < e implies !closes_at(s, j) by {
        if j == 0 {
            assert(s[0] == '{');
        } else if j == 1 {
            assert(s[1] == '"');
        } else if j < e - 1 {
            assert(brace_scan(s.take(2 + (j - 2))) == brace_scan(h));
        } else {
            assert(s[j] == '"');
        }
    }
    lemma_first_close(s, e);
}

/// Index, within `v[lo..hi]`, of the `}` that closes the first brace there.
fn closing_brace_in(v: &Vec<char>, lo: usize, hi: usize) -> (r: Option<usize>)
    requires
        lo <= hi <= v@.len(),
    ensures
        r == (match closing_brace(v@.subrange(lo as int, hi as int)) {
            Some(i) => Some(i as usize),
            None => None::<usize>,
        }),
        r matches Some(i) ==> i < hi - lo,
        closing_brace(v@.subrange(lo as int, hi as int)) matches Some(i) ==> 0 <= i < hi - lo,
{
    let ghost w = v@.subrange(lo as int, hi as int);
    let mut in_string = false;
    let mut escape_next = false;
    let mut depth: i128 = 0;
    let mut i: usize = 0;
    let n = hi - lo;
    while i < n
        invariant
            lo <= hi <= v@.len(),
            n == hi - lo,
            w == v@.subrange(lo as int, hi as int),
            i <= n,
            -(i as int) <= depth <= i,
            brace_scan(w.take(i as int)) == (BraceState { in_string, escape_next, depth: depth as int }),
            forall|j: int| 0 <= j < i ==> !closes_at(w, j),
        decreases n - i,
    {
        let c = v[lo + i];
        proof {
            assert(w.take(i + 1).drop_last() =~= w.take(i as int));
            assert(w.take(i + 1).last() == c);
            assert(w[i as int] == c);
        }
        if escape_next {
            escape_next = false;
        } else if c == '\\' && in_string {
            escape_next = true;
        } else if c == '"' {
            in_string = !in_string;
        } else if !in_string {
            if c == '{' {
                depth = depth + 1;
            } else if c == '}' {
                depth = depth - 1;
                if depth == 0 {
                    proof {
                        assert(closes_at(w, i as int));
                        lemma_first_close(w, i as int);
                    }
                    return Some(i);
                }
            }
        }
        proof {
            assert(!closes_at(w, i as int));
        }
        i = i + 1;
    }
    proof {
        assert forall|j: int| !closes_at(w, j) by {
            if 0 <= j < i {
            }
        }
        reveal(closing_brace);
    }
    None
}

/// Index of the `}` that closes the first `{` of `s` (in characters), minding
/// strings and escapes: the first `}` outside a string that brings the
/// nesting depth back to zero.
pub fn find_closing_brace(s: &str) -> (r: Option<usize>)
    ensures
        r == (match closing_brace(s@) {
            Some(i) => Some(i as usize),
            None => None::<usize>,
        }),
{
    let v = chars_of(s);
    let r = closing_brace_in(&v, 0, v.len());
    assert(v@.subrange(0, v@.len() as int) =~= s@);
    r
}


// ---------------------------------------------------------------------------
// Locating the object in prose
// ---------------------------------------------------------------------------

/// Index of the first `c` in `s`, or `s.len()` when there is none.
pub open spec fn first_index(s: Seq<char>, c: char) -> int
    decreases s.len(),
{
    if s.len() == 0 {
        0
    } else if s[0] == c {
        0
    } else {
        1 + first_index(s.drop_first(), c)
    }
}

/// Index of the last `c` in `s`, or -1 when there is none.
pub open spec fn last_index(s: Seq<char>, c: char) -> int
    decreases s.len(),
{
    if s.len() == 0 {
        -1
    } else if s.last() == c {
        s.len() - 1
    } else {
        last_index(s.drop_last(), c)
    }
}

pub proof fn lemma_first_index(s: Seq<char>, c: char, i: int)
    requires
        0 <= i <= s.len(),
        forall|j: int| 0 <= j < i ==> s[j] != c,
        i == s.len() || s[i] == c,
    ensures
        first_index(s, c) == i,
    decreases i,
{
    if i > 0 {
        assert forall|j: int| 0 <= j < i - 1 implies s.drop_first()[j] != c by {
            assert(s.drop_first()[j] == s[j + 1]);
        }
        if i - 1 < s.drop_first().len() {
            assert(s.drop_first()[i - 1] == s[i]);
        }
        lemma_first_index(s.drop_first(), c, i - 1);
    }
}

pub proof fn lemma_last_index(s: Seq<char>, c: char, i: int)
    requires
        -1 <= i < s.len(),
        forall|j: int| i < j < s.len() ==> s[j] != c,
        i == -1 || s[i] == c,
    ensures
        last_index(s, c) == i,
    decreases s.len(),
{
    if s.len() > 0 && i < s.len() - 1 {
        assert forall|j: int| i < j < s.drop_last().len() implies s.drop_last()[j] != c by {
            assert(s.drop_last()[j] == s[j]);
        }
        lemma_last_index(s.drop_last(), c, i);
    }
}

/// Index of the first `c` in `v[lo..hi]` (relative to `lo`), or `hi - lo`.
fn first_index_in(v: &Vec<char>, lo: usize, hi: usize, c: char) -> (r: usize)
    requires
        lo <= hi <= v@.len(),
    ensures
        r == first_index(v@.subrange(lo as int, hi as int), c),
        r <= hi - lo,
{
    let ghost w = v@.subrange(lo as int, hi as int);
    let mut i: usize = 0;
    while i < hi - lo && v[lo + i] != c
        invariant
            lo <= hi <= v@.len(),
            w == v@.subrange(lo as int, hi as int),
            i <= hi - lo,
            forall|j: int| 0 <= j < i ==> w[j] != c,
        decreases hi - lo - i,
    {
        assert(w[i as int] == v@[lo + i]);
        i = i + 1;
    }
    proof {
        if i < hi - lo {
            assert(w[i as int] == v@[lo + i]);
        }
        lemma_first_index(w, c, i as int);
    }
    i
}

/// Index of the last `c` in `v[lo..hi]` (relative to `lo`), if any.
fn last_index_in(v: &Vec<char>, lo: usize, hi: usize, c: char) -> (r: Option<usize>)
    requires
        lo <= hi <= v@.len(),
    ensures
        r == (if last_index(v@.subrange(lo as int, hi as int), c) < 0 {
            None::<usize>
        } else {
            Some(last_index(v@.subrange(lo as int, hi as int), c) as usize)
        }),
        r matches Some(b) ==> b < hi - lo,
        last_index(v@.subrange(lo as int, hi as int), c) < hi - lo,
{
    let ghost w = v@.subrange(lo as int, hi as int);
    let mut k: usize = hi - lo;
    while k > 0 && v[lo + k - 1] != c
        invariant
            lo <= hi <= v@.len(),
            w == v@.subrange(lo as int, hi as int),
            k <= hi - lo,
            forall|j: int| k <= j < w.len() ==> w[j] != c,
        decreases k,
    {
        assert(w[k - 1] == v@[lo + k - 1]);
        k = k - 1;
    }
    proof {
        if k > 0 {
            assert(w[k - 1] == v@[lo + k - 1]);
        }
        lemma_last_index(w, c, k - 1);
    }
    if k == 0 {
        None
    } else {
        Some(k - 1)
    }
}

/// The span from the first `{` to the last `}` of `s`, when both occur and
/// the `}` comes after the `{`.
pub open spec fn object_span(s: Seq<char>) -> Option<Seq<char>> {
    let a = first_index(s, '{');
    let b = last_index(s, '}');
    if a < s.len() && b > a {
        Some(s.subrange(a, b + 1))
    } else {
        None
    }
}

proof fn lemma_index_hits(s: Seq<char>, c: char)
    ensures
        0 <= first_index(s, c) <= s.len(),
        first_index(s, c) < s.len() ==> s[first_index(s, c)] == c,
        -1 <= last_index(s, c) < s.len(),
        last_index(s, c) >= 0 ==> s[last_index(s, c)] == c,
    decreases s.len(),
{
    if s.len() > 0 {
        lemma_index_hits(s.drop_first(), c);
        lemma_index_hits(s.drop_last(), c);
        if s[0] != c && first_index(s, c) < s.len() {
            assert(s[first_index(s, c)] == s.drop_first()[first_index(s, c) - 1]);
        }
        if s.last() != c && last_index(s, c) >= 0 {
            assert(s[last_index(s, c)] == s.drop_last()[last_index(s, c)]);
        }
    }
}

/// Taking the object out of prose twice is taking it once: the span of a
/// span is itself.
pub proof fn law_object_span_idempotent(s: Seq<char>)
    ensures
        object_span(s) matches Some(o) ==> object_span(o) == Some(o),
{
    if let Some(o) = object_span(s) {
        lemma_index_hits(s, '{');
        lemma_index_hits(s, '}');
        let a = first_index(s, '{');
        let b = last_index(s, '}');
        assert(o[0] == s[a]);
        assert(o.last() == s[b]);
        assert(first_index(o, '{') == 0);
        assert(last_index(o, '}') == o.len() - 1);
        assert(o.subrange(0, o.len() as int) =~= o);
    }
}

/// Bounds (within `v[lo..hi]`, absolute) of [`object_span`].
fn object_span_in(v: &Vec<char>, lo: usize, hi: usize) -> (r: Option<(usize, usize)>)
    requires
        lo <= hi <= v@.len(),
    ensures
        match r {
            Some((a, b)) => lo <= a < b <= hi && object_span(v@.subrange(lo as int, hi as int))
                == Some(v@.subrange(a as int, b as int)),
            None => object_span(v@.subrange(lo as int, hi as int)) is None,
        },
{
    let ghost w = v@.subrange(lo as int, hi as int);
    let a = first_index_in(v, lo, hi, '{');
    if a == hi - lo {
        return None;
    }
    match last_index_in(v, lo, hi, '}') {
        None => None,
        Some(b) => {
            if b > a {
                assert(w.len() == hi - lo);
                assert(last_index(w, '}') == b);
                assert(object_span(w) == Some(w.subrange(a as int, b + 1)));
                assert(w.subrange(a as int, b + 1) =~= v@.subrange(lo + a, lo + b + 1));
                Some((lo + a, lo + b + 1))
            } else {
                None
            }
        },
    }
}

/// The first JSON object in text that may hold prose around it: from the
/// first `{` to the last `}`, when the `}` comes after the `{`.
pub fn extract_json_object(text: &str) -> (r: Option<String>)
    ensures
        match r {
            Some(o) => object_span(text@) == Some(o@),
            None => object_span(text@) is None,
        },
{
    let v = chars_of(text);
    assert(v@.subrange(0, v@.len() as int) =~= text@);
    match object_span_in(&v, 0, v.len()) {
        Some((a, b)) => Some(string_from_chars(&v, a, b)),
        None => None,
    }
}


// ---------------------------------------------------------------------------
// Markdown fences
// ---------------------------------------------------------------------------

/// A markdown code fence.
pub open spec fn ticks() -> Seq<char> {
    seq!['`', '`', '`']
}

/// `u` without a closing fence at its end.
pub open spec fn drop_ticks_suffix(u: Seq<char>) -> Seq<char> {
    if ticks().is_suffix_of(u) {
        u.take(u.len() - 3)
    } else {
        u
    }
}

/// `t` holds a newline.
pub open spec fn has_newline(t: Seq<char>) -> bool {
    first_index(t, '\n') < t.len()
}

/// The body of a fenced block: what follows its first line, trimmed, without
/// a closing fence.
pub open spec fn fence_body(t: Seq<char>) -> Seq<char> {
    drop_ticks_suffix(trim(t.skip(first_index(t, '\n') + 1)))
}

/// `s` without its leading `c`s.
pub open spec fn trim_start_char(s: Seq<char>, c: char) -> Seq<char>
    decreases s.len(),
{
    if s.len() > 0 && s[0] == c {
        trim_start_char(s.drop_first(), c)
    } else {
        s
    }
}

/// `s` without its trailing `c`s.
pub open spec fn trim_end_char(s: Seq<char>, c: char) -> Seq<char>
    decreases s.len(),
{
    if s.len() > 0 && s.last() == c {
        trim_end_char(s.drop_last(), c)
    } else {
        s
    }
}

/// A trimmed reply without its fence, as plan parsing reads it: the body of
/// a fenced block that has a newline, else the reply as it is.
pub open spec fn unfence_plan(t: Seq<char>) -> Seq<char> {
    if ticks().is_prefix_of(t) && has_newline(t) {
        fence_body(t)
    } else {
        t
    }
}

/// A trimmed reply without its fence, as script parsing reads it: like
/// [`unfence_plan`], and a one-line block fenced at both ends loses both
/// fences.
pub open spec fn unfence_script(t: Seq<char>) -> Seq<char> {
    if ticks().is_prefix_of(t) {
        if has_newline(t) {
            fence_body(t)
        } else if ticks().is_suffix_of(t.skip(3)) {
            t.skip(3).take(t.len() - 6)
        } else {
            t
        }
    } else {
        t
    }
}

/// A trimmed reply without its fence, as JSON extraction reads it: like
/// [`unfence_plan`], and a one-line block loses all its backticks at both
/// ends and is trimmed again.
pub open spec fn unfence_json(t: Seq<char>) -> Seq<char> {
    if ticks().is_prefix_of(t) {
        if has_newline(t) {
            fence_body(t)
        } else {
            trim(trim_end_char(trim_start_char(t, '`'), '`'))
        }
    } else {
        t
    }
}

/// Whether `v[at..at + 3]` is a fence.
fn ticks_at(v: &Vec<char>, at: usize) -> (b: bool)
    requires
        at + 3 <= v@.len(),
    ensures
        b == (v@.subrange(at as int, at + 3) == ticks()),
{
    let n = v.len();
    let r = v[at] == '`' && v[at + 1] == '`' && v[at + 2] == '`';
    if r {
        assert(v@.subrange(at as int, at + 3) =~= ticks());
    } else {
        assert(v@.subrange(at as int, at + 3) != ticks()) by {
            if v@.subrange(at as int, at + 3) == ticks() {
                assert(v@.subrange(at as int, at + 3)[0] == v@[at as int]);
                assert(v@.subrange(at as int, at + 3)[1] == v@[at + 1]);
                assert(v@.subrange(at as int, at + 3)[2] == v@[at + 2]);
            }
        }
    }
    r
}

fn ticks_prefix(v: &Vec<char>, lo: usize, hi: usize) -> (b: bool)
    requires
        lo <= hi <= v@.len(),
    ensures
        b == ticks().is_prefix_of(v@.subrange(lo as int, hi as int)),
{
    if hi - lo < 3 {
        return false;
    }
    let r = ticks_at(v, lo);
    assert(v@.subrange(lo as int, hi as int).subrange(0, 3) =~= v@.subrange(lo as int, lo + 3));
    r
}

fn ticks_suffix(v: &Vec<char>, lo: usize, hi: usize) -> (b: bool)
    requires
        lo <= hi <= v@.len(),
    ensures
        b == ticks().is_suffix_of(v@.subrange(lo as int, hi as int)),
{
    if hi - lo < 3 {
        return false;
    }
    let r = ticks_at(v, hi - 3);
    let ghost w = v@.subrange(lo as int, hi as int);
    assert(w.subrange(w.len() - 3, w.len() as int) =~= v@.subrange(hi - 3, hi as int));
    r
}

/// Bounds of [`fence_body`] of `v[lo..hi]`, which must start with a fence
/// and hold a newline at relative index `k`.
fn fence_body_in(v: &Vec<char>, lo: usize, hi: usize, k: usize) -> (r: (usize, usize))
    requires
        lo <= hi <= v@.len(),
        k < hi - lo,
        k == first_index(v@.subrange(lo as int, hi as int), '\n'),
    ensures
        lo <= r.0 <= r.1 <= hi,
        v@.subrange(r.0 as int, r.1 as int) == fence_body(v@.subrange(lo as int, hi as int)),
{
    let ghost w = v@.subrange(lo as int, hi as int);
    assert(w.skip(k + 1) =~= v@.subrange(lo + k + 1, hi as int));
    let (a, b) = trim_bounds(v, lo + k + 1, hi);
    if ticks_suffix(v, a, b) {
        assert(v@.subrange(a as int, b as int).take(b - a - 3) =~= v@.subrange(a as int, b - 3));
        (a, b - 3)
    } else {
        (a, b)
    }
}

proof fn lemma_trim_start_char(s: Seq<char>, c: char, i: int)
    requires
        0 <= i <= s.len(),
        forall|j: int| 0 <= j < i ==> s[j] == c,
        i == s.len() || s[i] != c,
    ensures
        trim_start_char(s, c) == s.skip(i),
    decreases i,
{
    if i > 0 {
        assert forall|j: int| 0 <= j < i - 1 implies s.drop_first()[j] == c by {
            assert(s.drop_first()[j] == s[j + 1]);
        }
        if i - 1 < s.drop_first().len() {
            assert(s.drop_first()[i - 1] == s[i]);
        }
        lemma_trim_start_char(s.drop_first(), c, i - 1);
        assert(s.drop_first().skip(i - 1) =~= s.skip(i));
    } else {
        assert(s.skip(0) =~= s);
    }
}

/// `trim_end_char(s, c)` is `s.take(i)` when `i` bounds the trailing run of
/// `c`s.
pub proof fn lemma_trim_end_char_at(s: Seq<char>, c: char, i: int)
    requires
        0 <= i <= s.len(),
        forall|j: int| i <= j < s.len() ==> s[j] == c,
        i == 0 || s[i - 1] != c,
    ensures
        trim_end_char(s, c) == s.take(i),
{
    lemma_trim_end_char(s, c, i);
}

proof fn lemma_trim_end_char(s: Seq<char>, c: char, i: int)
    requires
        0 <= i <= s.len(),
        forall|j: int| i <= j < s.len() ==> s[j] == c,
        i == 0 || s[i - 1] != c,
    ensures
        trim_end_char(s, c) == s.take(i),
    decreases s.len() - i,
{
    if i < s.len() {
        assert forall|j: int| i <= j < s.drop_last().len() implies s.drop_last()[j] == c by {
            assert(s.drop_last()[j] == s[j]);
        }
        if i > 0 {
            assert(s.drop_last()[i - 1] == s[i - 1]);
        }
        lemma_trim_end_char(s.drop_last(), c, i);
        assert(s.drop_last().take(i) =~= s.take(i));
    } else {
        assert(s.take(i) =~= s);
    }
}

/// Which fence-stripping rule a caller follows.
#[derive(Clone, Debug, PartialEq)]
pub enum FenceRule {
    /// Plan replies: a fence without a newline is left as it is.
    Plan,
    /// Script replies: a one-line block loses a fence at both ends.
    Script,
    /// JSON extraction: a one-line block loses all backticks at both ends.
    Json,
}

/// The unfenced form of `t` under `rule`.
pub open spec fn unfence(rule: FenceRule, t: Seq<char>) -> Seq<char> {
    match rule {
        FenceRule::Plan => unfence_plan(t),
        FenceRule::Script => unfence_script(t),
        FenceRule::Json => unfence_json(t),
    }
}

/// Bounds of `unfence(rule, v[lo..hi])`.
fn unfence_in(rule: &FenceRule, v: &Vec<char>, lo: usize, hi: usize) -> (r: (usize, usize))
    requires
        lo <= hi <= v@.len(),
    ensures
        lo <= r.0 <= r.1 <= hi,
        v@.subrange(r.0 as int, r.1 as int) == unfence(*rule, v@.subrange(lo as int, hi as int)),
{
    let ghost w = v@.subrange(lo as int, hi as int);
    if !ticks_prefix(v, lo, hi) {
        return (lo, hi);
    }
    let k = first_index_in(v, lo, hi, '\n');
    if k < hi - lo {
        return fence_body_in(v, lo, hi, k);
    }
    match rule {
        FenceRule::Plan => (lo, hi),
        FenceRule::Script => {
            assert(w.skip(3) =~= v@.subrange(lo + 3, hi as int));
            if ticks_suffix(v, lo + 3, hi) {
                assert(w.skip(3).take(w.len() - 6) =~= v@.subrange(lo + 3, hi - 3));
                (lo + 3, hi - 3)
            } else {
                (lo, hi)
            }
        },
        FenceRule::Json => {
            let mut a = lo;
            while a < hi && v[a] == '`'
                invariant
                    lo <= a <= hi <= v@.len(),
                    w == v@.subrange(lo as int, hi as int),
                    forall|j: int| lo <= j < a ==> v@[j] == '`',
                decreases hi - a,
            {
                a = a + 1;
            }
            proof {
                lemma_trim_start_char(w, '`', a - lo);
                assert(w.skip(a - lo) =~= v@.subrange(a as int, hi as int));
            }
            let mut b = hi;
            while b > a && v[b - 1] == '`'
                invariant
                    lo <= a <= b <= hi <= v@.len(),
                    forall|j: int| b <= j < hi ==> v@[j] == '`',
                decreases b - a,
            {
                b = b - 1;
            }
            proof {
                let u = v@.subrange(a as int, hi as int);
                lemma_trim_end_char(u, '`', b - a);
                assert(u.take(b - a) =~= v@.subrange(a as int, b as int));
            }
            trim_bounds(v, a, b)
        },
    }
}

// ---------------------------------------------------------------------------
// Extracting JSON
// ---------------------------------------------------------------------------

/// Whether `s` parses as a JSON document (as `serde_json` reads it).
pub uninterp spec fn parses_as_json(s: Seq<char>) -> bool;

/// `serde_json::from_str::<serde_json::Value>`: reports whether `s` is a
/// well-formed JSON document. What counts as well-formed is `serde_json`'s
/// grammar, named here and not restated.
#[verifier::external_body]
fn is_json(s: &str) -> (b: bool)
    ensures
        b == parses_as_json(s@),
{
    serde_json::from_str::<serde_json::Value>(s).is_ok()
}

/// The JSON that extraction takes from an unfenced reply `t`, given whether
/// `t` parses as JSON as a whole: `t` itself if so, else the span from its
/// first `{` to the brace that closes it.
pub open spec fn json_in(t: Seq<char>, whole_ok: bool) -> Option<Seq<char>> {
    if whole_ok {
        Some(t)
    } else {
        let a = first_index(t, '{');
        if a >= t.len() {
            None
        } else {
            match closing_brace(t.skip(a)) {
                Some(e) => Some(t.subrange(a, a + e + 1)),
                None => None,
            }
        }
    }
}

/// The reply text that JSON extraction works on.
pub open spec fn json_candidate(text: Seq<char>) -> Seq<char> {
    unfence_json(trim(text))
}

fn extract_json_in(v: &Vec<char>, lo: usize, hi: usize, whole_ok: bool) -> (r: Option<String>)
    requires
        lo <= hi <= v@.len(),
    ensures
        match r {
            Some(o) => json_in(v@.subrange(lo as int, hi as int), whole_ok) == Some(o@),
            None => json_in(v@.subrange(lo as int, hi as int), whole_ok) is None,
        },
{
    let ghost t = v@.subrange(lo as int, hi as int);
    if whole_ok {
        return Some(string_from_chars(v, lo, hi));
    }
    let a = first_index_in(v, lo, hi, '{');
    if a >= hi - lo {
        return None;
    }
    assert(t.skip(a as int) =~= v@.subrange(lo + a, hi as int));
    let ghost cb = closing_brace(t.skip(a as int));
    let found = closing_brace_in(v, lo + a, hi);
    assert(found == (match cb {
        Some(i) => Some(i as usize),
        None => None::<usize>,
    }));
    match found {
        Some(e) => {
            assert(cb == Some(e as int));
            assert(t.subrange(a as int, a + e + 1) =~= v@.subrange(lo + a, lo + a + e + 1));
            Some(string_from_chars(v, lo + a, lo + a + e + 1))
        },
        None => {
            assert(cb is None);
            None
        },
    }
}

/// JSON extraction from an already unfenced reply `t`, given whether `t`
/// parses as JSON as a whole.
pub fn extract_json_given(t: &str, whole_ok: bool) -> (r: Option<String>)
    ensures
        match r {
            Some(o) => json_in(t@, whole_ok) == Some(o@),
            None => json_in(t@, whole_ok) is None,
        },
{
    let v = chars_of(t);
    assert(v@.subrange(0, v@.len() as int) =~= t@);
    extract_json_in(&v, 0, v.len(), whole_ok)
}

/// Extracts the JSON of a reply that may be wrapped in a markdown fence or
/// surrounded by prose: the trimmed, unfenced reply if it parses as JSON,
/// else the span from its first `{` to the brace that closes it.
pub fn extract_json(text: &str) -> (r: Option<String>)
    ensures
        match r {
            Some(o) => json_in(json_candidate(text@), parses_as_json(json_candidate(text@)))
                == Some(o@),
            None => json_in(json_candidate(text@), parses_as_json(json_candidate(text@))) is None,
        },
{
    let v = chars_of(text);
    let (lo, hi) = trim_bounds(&v, 0, v.len());
    assert(v@.subrange(0, v@.len() as int) =~= text@);
    let (a, b) = unfence_in(&FenceRule::Json, &v, lo, hi);
    let candidate = string_from_chars(&v, a, b);
    let ok = is_json(candidate.as_str());
    extract_json_in(&v, a, b, ok)
}

/// The reply text that plan or script parsing works on: trimmed and
/// unfenced under `rule`.
pub fn unfenced_reply(text: &str, rule: FenceRule) -> (r: String)
    ensures
        r@ == unfence(rule, trim(text@)),
{
    let v = chars_of(text);
    let (lo, hi) = trim_bounds(&v, 0, v.len());
    assert(v@.subrange(0, v@.len() as int) =~= text@);
    let (a, b) = unfence_in(&rule, &v, lo, hi);
    string_from_chars(&v, a, b)
}

} // verus!
