//! Text-to-speech preparation: splitting a line of text into chunks that the
//! synthesis service accepts, with the pause to insert after each chunk.

use vstd::prelude::*;
use crate::text::{
    append_chars, chars_of, is_whitespace, lemma_views_push, push_char, string_from_chars, trim, trim_bounds,
    split_newlines, trim_chars, trim_end, trim_start, views,
};

verus! {

/// Maximum number of characters in one synthesis chunk.
pub const TTS_CHUNK_MAX_CHARS: usize = 200;

/// Pause after a chunk that ends inside a paragraph.
pub const SENTENCE_PAUSE_MS: u32 = 200;

/// Pause after a chunk that ends a paragraph.
pub const PARAGRAPH_PAUSE_MS: u32 = 600;

/// A piece of text for one synthesis call, with the pause (in ms) to insert
/// after it.
#[derive(Clone, Debug, PartialEq)]
pub struct TtsChunk {
    pub text: String,
    pub pause_ms: u32,
}

/// The texts and pauses of a sequence of chunks.
pub open spec fn chunks_view(v: Seq<TtsChunk>) -> (Seq<Seq<char>>, Seq<u32>) {
    (v.map_values(|c: TtsChunk| c.text@), v.map_values(|c: TtsChunk| c.pause_ms))
}

// ---------------------------------------------------------------------------
// Sentence splitting of one long paragraph
// ---------------------------------------------------------------------------

/// Characters that end a sentence.
pub open spec fn is_sentence_boundary(c: char) -> bool {
    c == '.' || c == '!' || c == '?' || c == '。' || c == '！' || c == '？' || c == '；' || c == ';'
}

/// Executable test for [`is_sentence_boundary`].
pub fn is_sentence_boundary_char(c: char) -> (b: bool)
    ensures
        b == is_sentence_boundary(c),
{
    c == '.' || c == '!' || c == '?' || c == '。' || c == '！' || c == '？' || c == '；' || c == ';'
}

/// Length of the longest prefix of `w` that ends with a sentence boundary;
/// 0 when `w` holds no boundary.
pub open spec fn boundary_cut(w: Seq<char>) -> nat
    decreases w.len(),
{
    if w.len() == 0 {
        0
    } else if is_sentence_boundary(w.last()) {
        w.len()
    } else {
        boundary_cut(w.drop_last())
    }
}

pub proof fn lemma_boundary_cut_bound(w: Seq<char>)
    ensures
        boundary_cut(w) <= w.len(),
        boundary_cut(w) > 0 ==> is_sentence_boundary(w[boundary_cut(w) - 1]),
        forall|j: int| boundary_cut(w) <= j < w.len() ==> !is_sentence_boundary(#[trigger] w[j]),
    decreases w.len(),
{
    if w.len() > 0 && !is_sentence_boundary(w.last()) {
        lemma_boundary_cut_bound(w.drop_last());
        assert forall|j: int| boundary_cut(w) <= j < w.len() implies !is_sentence_boundary(
            #[trigger] w[j],
        ) by {
            if j < w.len() - 1 {
                assert(w[j] == w.drop_last()[j]);
            }
        }
    }
}

/// Length of the chunk cut from the front of a text longer than the limit:
/// up to the last sentence boundary within the first
/// `TTS_CHUNK_MAX_CHARS` characters, else exactly that many characters.
pub open spec fn sentence_cut_len(s: Seq<char>) -> nat {
    let c = boundary_cut(s.take(TTS_CHUNK_MAX_CHARS as int));
    if c == 0 {
        TTS_CHUNK_MAX_CHARS as nat
    } else {
        c
    }
}

/// The pieces that sentence splitting cuts `s` into.
pub open spec fn sentence_pieces(s: Seq<char>) -> Seq<Seq<char>>
    decreases s.len(),
{
    if s.len() == 0 {
        seq![]
    } else if s.len() <= TTS_CHUNK_MAX_CHARS {
        seq![s]
    } else {
        let k = sentence_cut_len(s);
        proof {
            lemma_boundary_cut_bound(s.take(TTS_CHUNK_MAX_CHARS as int));
        }
        seq![s.take(k as int)] + sentence_pieces(s.skip(k as int))
    }
}

/// A character that ends a sentence in English or Chinese text: `.`, `!`,
/// `?`, `;` and their full-width forms `。`, `！`, `？`, `；`.
pub open spec fn sentence_end(c: char) -> bool {
    ||| c == '.'
    ||| c == '!'
    ||| c == '?'
    ||| c == ';'
    ||| c == '。'
    ||| c == '！'
    ||| c == '？'
    ||| c == '；'
}

/// A text too long for one chunk that has a sentence end within the limit
/// is cut right after its last sentence end within the limit: the first
/// piece is that prefix of the text, so it ends a sentence and leaves no
/// sentence end among the limit's characters after it.
pub proof fn law_cut_after_last_sentence_end(s: Seq<char>, j: int)
    requires
        s.len() > TTS_CHUNK_MAX_CHARS,
        0 <= j < TTS_CHUNK_MAX_CHARS,
        sentence_end(s[j]),
    ensures
        sentence_pieces(s).len() > 0,
        j < sentence_pieces(s)[0].len() <= TTS_CHUNK_MAX_CHARS,
        sentence_pieces(s)[0] == s.take(sentence_pieces(s)[0].len() as int),
        sentence_end(sentence_pieces(s)[0].last()),
        forall|x: int| sentence_pieces(s)[0].len() <= x < TTS_CHUNK_MAX_CHARS ==> !sentence_end(#[trigger] s[x]),
{
    let w = s.take(TTS_CHUNK_MAX_CHARS as int);
    lemma_boundary_cut_bound(w);
    assert(w[j] == s[j]);
    let k = sentence_cut_len(s) as int;
    assert(k > j);
    let p = sentence_pieces(s)[0];
    assert(p == s.take(k));
    assert(p.last() == w[k - 1]);
    assert forall|x: int| k <= x < TTS_CHUNK_MAX_CHARS implies !sentence_end(#[trigger] s[x]) by {
        assert(w[x] == s[x]);
    }
}

/// A text too long for one chunk with no sentence end within the limit is
/// cut hard at the limit.
pub proof fn law_hard_cut_without_sentence_end(s: Seq<char>)
    requires
        s.len() > TTS_CHUNK_MAX_CHARS,
        forall|x: int| 0 <= x < TTS_CHUNK_MAX_CHARS ==> !sentence_end(#[trigger] s[x]),
    ensures
        sentence_pieces(s).len() > 0,
        sentence_pieces(s)[0] == s.take(TTS_CHUNK_MAX_CHARS as int),
{
    let w = s.take(TTS_CHUNK_MAX_CHARS as int);
    lemma_boundary_cut_bound(w);
    if boundary_cut(w) > 0 {
        assert(w[boundary_cut(w) - 1] == s[boundary_cut(w) - 1]);
    }
}

/// Pauses after `n` sentence pieces: `pause` after each but the last, 0 after
/// the last.
pub open spec fn sentence_pauses(n: nat, pause: u32) -> Seq<u32> {
    Seq::new(n, |i: int| if i == n - 1 { 0u32 } else { pause })
}

/// Splits `chars[lo..hi]` at sentence boundaries into pieces of at most
/// `TTS_CHUNK_MAX_CHARS` characters, appending the pieces to `out` and their
/// pauses to `boundaries`: `pause_ms` after each piece but the last, 0 after
/// the last.
fn split_sentence_range(
    chars: &Vec<char>,
    lo: usize,
    hi: usize,
    pause_ms: u32,
    out: &mut Vec<String>,
    boundaries: &mut Vec<u32>,
)
    requires
        lo <= hi <= chars@.len(),
    ensures
        views(final(out)@) == views(old(out)@) + sentence_pieces(
            chars@.subrange(lo as int, hi as int),
        ),
        final(boundaries)@ == old(boundaries)@ + sentence_pauses(
            sentence_pieces(chars@.subrange(lo as int, hi as int)).len(),
            pause_ms,
        ),
{
    let ghost whole = chars@.subrange(lo as int, hi as int);
    let ghost out0 = views(out@);
    let ghost b0 = boundaries@;
    let ghost mut produced: Seq<Seq<char>> = seq![];
    let mut start = lo;
    assert(chars@.subrange(start as int, hi as int) =~= whole);
    assert(produced + sentence_pieces(whole) =~= sentence_pieces(whole));
    while start < hi
        invariant
            lo <= start <= hi <= chars@.len(),
            whole == chars@.subrange(lo as int, hi as int),
            sentence_pieces(whole) == produced + sentence_pieces(
                chars@.subrange(start as int, hi as int),
            ),
            out0 == views(old(out)@),
            b0 == old(boundaries)@,
            views(out@) == out0 + produced,
            boundaries@ == b0 + Seq::new(produced.len(), |i: int| pause_ms),
            start < hi || produced.len() == 0,
        decreases hi - start,
    {
        let ghost rest = chars@.subrange(start as int, hi as int);
        let remaining = hi - start;
        if remaining <= TTS_CHUNK_MAX_CHARS {
            let piece = string_from_chars(chars, start, hi);
            let ghost before = out@;
            out.push(piece);
            boundaries.push(0);
            proof {
                lemma_views_push(before, piece);
                assert(sentence_pieces(rest) == seq![rest]);
                assert(sentence_pieces(whole) == produced + seq![rest]);
                assert((out0 + produced).push(rest) =~= out0 + (produced + seq![rest]));
                assert(views(out@) == views(old(out)@) + sentence_pieces(whole));
                let n = produced.len();
                assert(Seq::new(n, |i: int| pause_ms).push(0u32) =~= sentence_pauses(
                    n + 1,
                    pause_ms,
                ));
                assert((b0 + Seq::new(n, |i: int| pause_ms)).push(0u32) =~= b0 + Seq::new(
                    n,
                    |i: int| pause_ms,
                ).push(0u32));
                assert(boundaries@ == old(boundaries)@ + sentence_pauses(
                    sentence_pieces(whole).len(),
                    pause_ms,
                ));
            }
            return ;
        }
        let search_end = start + TTS_CHUNK_MAX_CHARS;
        let mut j = search_end;
        proof {
            assert(rest.take(TTS_CHUNK_MAX_CHARS as int) =~= chars@.subrange(
                start as int,
                search_end as int,
            ));
        }
        while j > start && !is_sentence_boundary_char(chars[j - 1])
            invariant
                start <= j <= search_end <= hi <= chars@.len(),
                boundary_cut(chars@.subrange(start as int, search_end as int)) == boundary_cut(
                    chars@.subrange(start as int, j as int),
                ),
            decreases j - start,
        {
            assert(chars@.subrange(start as int, j as int).drop_last() =~= chars@.subrange(
                start as int,
                j - 1,
            ));
            j = j - 1;
        }
        let end = if j > start {
            j
        } else {
            search_end
        };
        proof {
            lemma_boundary_cut_bound(rest.take(TTS_CHUNK_MAX_CHARS as int));
            assert(sentence_cut_len(rest) == end - start);
            assert(rest.take((end - start) as int) =~= chars@.subrange(start as int, end as int));
            assert(rest.skip((end - start) as int) =~= chars@.subrange(end as int, hi as int));
        }
        let piece = string_from_chars(chars, start, end);
        let ghost before = out@;
        out.push(piece);
        boundaries.push(pause_ms);
        proof {
            lemma_views_push(before, piece);
            let p = chars@.subrange(start as int, end as int);
            assert(sentence_pieces(rest) == seq![p] + sentence_pieces(
                chars@.subrange(end as int, hi as int),
            ));
            produced = produced.push(p);
            assert(views(out@) =~= out0 + produced);
            assert(boundaries@ =~= b0 + Seq::new(produced.len(), |i: int| pause_ms));
            assert(produced.drop_last() + seq![p] =~= produced);
        }
        start = end;
    }
    proof {
        assert(chars@.subrange(start as int, hi as int) =~= Seq::<char>::empty());
        assert(views(out@) =~= views(old(out)@) + sentence_pieces(whole));
        assert(boundaries@ =~= old(boundaries)@ + sentence_pauses(
            sentence_pieces(whole).len(),
            pause_ms,
        ));
    }
}


/// Splits `text` at sentence boundaries into pieces of at most
/// `TTS_CHUNK_MAX_CHARS` characters (see [`sentence_pieces`]), appending the
/// pieces to `out` and their pauses to `boundaries`: `pause_ms` after each
/// piece but the last, 0 after the last.
pub fn split_sentence_with_boundaries(text: &str, pause_ms: u32, out: &mut Vec<String>, boundaries: &mut Vec<u32>)
    ensures
        views(final(out)@) == views(old(out)@) + sentence_pieces(text@),
        final(boundaries)@ == old(boundaries)@ + sentence_pauses(sentence_pieces(text@).len(), pause_ms),
{
    let chars = chars_of(text);
    assert(chars@.subrange(0, chars@.len() as int) =~= text@);
    split_sentence_range(&chars, 0, chars.len(), pause_ms, out, boundaries);
}

// ---------------------------------------------------------------------------
// Splitting a whole text
// ---------------------------------------------------------------------------

/// The paragraphs of a list of lines: each line trimmed, the empty ones left
/// out.
pub open spec fn paragraphs(lines: Seq<Seq<char>>) -> Seq<Seq<char>>
    decreases lines.len(),
{
    if lines.len() == 0 {
        seq![]
    } else {
        let prev = paragraphs(lines.drop_last());
        let p = trim(lines.last());
        if p.len() == 0 {
            prev
        } else {
            prev.push(p)
        }
    }
}

/// The state of the paragraph packer: finished chunk texts, their pauses,
/// and the paragraphs gathered for the next chunk.
pub type SplitState = (Seq<Seq<char>>, Seq<u32>, Seq<char>);

/// One step of the packer. A paragraph longer than the limit flushes the
/// buffer and is split into sentences, its last piece ending with the
/// paragraph pause; a shorter one joins the buffer (after a newline) unless
/// that would pass the limit, in which case the buffer is flushed first.
pub open spec fn add_paragraph(st: SplitState, para: Seq<char>) -> SplitState {
    let texts = st.0;
    let pauses = st.1;
    let buf = st.2;
    if para.len() > TTS_CHUNK_MAX_CHARS {
        let texts1 = if buf.len() > 0 { texts.push(buf) } else { texts };
        let pauses1 = if buf.len() > 0 { pauses.push(PARAGRAPH_PAUSE_MS) } else { pauses };
        let pieces = sentence_pieces(para);
        let pauses2 = pauses1 + sentence_pauses(pieces.len(), SENTENCE_PAUSE_MS);
        (texts1 + pieces, pauses2.update(pauses2.len() - 1, PARAGRAPH_PAUSE_MS), seq![])
    } else if buf.len() + para.len() + (if buf.len() == 0 { 0int } else { 1int })
        > TTS_CHUNK_MAX_CHARS {
        (texts.push(buf), pauses.push(PARAGRAPH_PAUSE_MS), para)
    } else if buf.len() == 0 {
        (texts, pauses, para)
    } else {
        (texts, pauses, buf.push('\n') + para)
    }
}

/// The packer's state after the paragraphs `paras`, in order.
pub open spec fn fold_paragraphs(paras: Seq<Seq<char>>) -> SplitState
    decreases paras.len(),
{
    if paras.len() == 0 {
        (seq![], seq![], seq![])
    } else {
        add_paragraph(fold_paragraphs(paras.drop_last()), paras.last())
    }
}

/// The chunk texts and pauses of a final packer state: a nonempty buffer
/// becomes the last chunk; whichever chunk comes last has no pause after it.
pub open spec fn finish_split(st: SplitState) -> (Seq<Seq<char>>, Seq<u32>) {
    if st.2.len() > 0 {
        (st.0.push(st.2), st.1.push(0u32))
    } else if st.1.len() > 0 {
        (st.0, st.1.update(st.1.len() - 1, 0u32))
    } else {
        (st.0, st.1)
    }
}

/// The chunks of `text` (texts and pauses): nothing for blank text, the
/// trimmed text alone when it fits in one chunk, else its paragraphs packed.
pub open spec fn tts_chunks(text: Seq<char>) -> (Seq<Seq<char>>, Seq<u32>) {
    let t = trim(text);
    if t.len() == 0 {
        (seq![], seq![])
    } else if t.len() <= TTS_CHUNK_MAX_CHARS {
        (seq![t], seq![0u32])
    } else {
        finish_split(fold_paragraphs(paragraphs(split_newlines(t))))
    }
}


/// Moves the contents of `buf` out, leaving it empty.
fn take_string(buf: &mut String) -> (r: String)
    ensures
        r@ == old(buf)@,
        final(buf)@ == Seq::<char>::empty(),
{
    let mut tmp = String::new();
    std::mem::swap(&mut tmp, buf);
    tmp
}

/// Feeds the paragraph `chars[a..b]` to the packer whose state is held in
/// `texts`, `bounds` and `buf` (`buf_chars` counting the characters of
/// `buf`).
fn add_paragraph_exec(
    chars: &Vec<char>,
    a: usize,
    b: usize,
    texts: &mut Vec<String>,
    bounds: &mut Vec<u32>,
    buf: &mut String,
    buf_chars: &mut usize,
)
    requires
        a <= b <= chars@.len(),
        *old(buf_chars) == old(buf)@.len(),
        old(buf)@.len() <= TTS_CHUNK_MAX_CHARS,
    ensures
        (views(final(texts)@), final(bounds)@, final(buf)@) == add_paragraph(
            (views(old(texts)@), old(bounds)@, old(buf)@),
            chars@.subrange(a as int, b as int),
        ),
        *final(buf_chars) == final(buf)@.len(),
        final(buf)@.len() <= TTS_CHUNK_MAX_CHARS,
{
    let ghost para = chars@.subrange(a as int, b as int);
    let para_chars = b - a;
    if para_chars > TTS_CHUNK_MAX_CHARS {
        if *buf_chars > 0 {
            let flushed = take_string(buf);
            let ghost before = texts@;
            texts.push(flushed);
            proof {
                lemma_views_push(before, flushed);
            }
            bounds.push(PARAGRAPH_PAUSE_MS);
            *buf_chars = 0;
        }
        let ghost texts1 = views(texts@);
        let ghost pauses1 = bounds@;
        split_sentence_range(chars, a, b, SENTENCE_PAUSE_MS, texts, bounds);
        proof {
            assert(sentence_pieces(para).len() > 0);
        }
        let n = bounds.len();
        bounds.set(n - 1, PARAGRAPH_PAUSE_MS);
        return ;
    }
    let sep: usize = if *buf_chars == 0 {
        0
    } else {
        1
    };
    if *buf_chars + para_chars + sep > TTS_CHUNK_MAX_CHARS {
        let flushed = take_string(buf);
        let ghost before = texts@;
        texts.push(flushed);
        proof {
            lemma_views_push(before, flushed);
        }
        bounds.push(PARAGRAPH_PAUSE_MS);
        *buf_chars = 0;
    }
    if *buf_chars > 0 {
        push_char(buf, '\n');
        *buf_chars = *buf_chars + 1;
    }
    append_chars(buf, chars, a, b);
    *buf_chars = *buf_chars + para_chars;
}


/// Feeds the line `t[lo..hi]` to the packer: its trimmed form, if nonempty,
/// is the next paragraph.
fn add_line(
    t: &Vec<char>,
    lo: usize,
    hi: usize,
    texts: &mut Vec<String>,
    bounds: &mut Vec<u32>,
    buf: &mut String,
    buf_chars: &mut usize,
    Ghost(done): Ghost<Seq<Seq<char>>>,
)
    requires
        lo <= hi <= t@.len(),
        *old(buf_chars) == old(buf)@.len(),
        old(buf)@.len() <= TTS_CHUNK_MAX_CHARS,
        (views(old(texts)@), old(bounds)@, old(buf)@) == fold_paragraphs(paragraphs(done)),
    ensures
        (views(final(texts)@), final(bounds)@, final(buf)@) == fold_paragraphs(
            paragraphs(done.push(t@.subrange(lo as int, hi as int))),
        ),
        *final(buf_chars) == final(buf)@.len(),
        final(buf)@.len() <= TTS_CHUNK_MAX_CHARS,
{
    let ghost line = t@.subrange(lo as int, hi as int);
    let (a, b) = trim_bounds(t, lo, hi);
    proof {
        assert(done.push(line).drop_last() =~= done);
    }
    if a < b {
        add_paragraph_exec(t, a, b, texts, bounds, buf, buf_chars);
        proof {
            let ps = paragraphs(done);
            assert(paragraphs(done.push(line)) == ps.push(trim(line)));
            assert(ps.push(trim(line)).drop_last() =~= ps);
        }
    }
}

/// Splits `text` into chunks of at most `TTS_CHUNK_MAX_CHARS` characters
/// for speech synthesis, each with the pause to insert after it. The text
/// is trimmed; blank text gives no chunk and text within the limit gives
/// itself with no pause. Longer text is cut into paragraphs (its trimmed,
/// nonempty lines), which are packed into chunks joined by newlines; a
/// paragraph over the limit is cut at sentence boundaries (or hard at the
/// limit where a stretch has none). Chunks that end a paragraph are
/// followed by `PARAGRAPH_PAUSE_MS`, those that end a sentence inside one
/// by `SENTENCE_PAUSE_MS`; the last chunk has no pause after it.
pub fn split_text_for_tts(text: &str) -> (chunks: Vec<TtsChunk>)
    ensures
        chunks_view(chunks@) == tts_chunks(text@),
{
    let t = trim_chars(text);
    let n = t.len();
    let mut chunks: Vec<TtsChunk> = Vec::new();
    if n == 0 {
        assert(chunks_view(chunks@).0 =~= seq![]);
        assert(chunks_view(chunks@).1 =~= seq![]);
        return chunks;
    }
    if n <= TTS_CHUNK_MAX_CHARS {
        let whole = string_from_chars(&t, 0, n);
        assert(t@.subrange(0, n as int) =~= t@);
        chunks.push(TtsChunk { text: whole, pause_ms: 0 });
        assert(chunks_view(chunks@).0 =~= seq![t@]);
        assert(chunks_view(chunks@).1 =~= seq![0u32]);
        return chunks;
    }
    let mut texts: Vec<String> = Vec::new();
    let mut bounds: Vec<u32> = Vec::new();
    let mut buf = String::new();
    let mut buf_chars: usize = 0;
    let mut line_start: usize = 0;
    let mut i: usize = 0;
    let ghost mut done: Seq<Seq<char>> = seq![];
    assert(views(texts@) =~= seq![]);
    assert(t@.take(0) =~= Seq::<char>::empty());
    assert(t@.subrange(0, 0) =~= Seq::<char>::empty());
    while i < n
        invariant
            n == t@.len(),
            line_start <= i <= n,
            split_newlines(t@.take(i as int)) == done.push(t@.subrange(line_start as int, i as int)),
            (views(texts@), bounds@, buf@) == fold_paragraphs(paragraphs(done)),
            buf_chars == buf@.len(),
            buf@.len() <= TTS_CHUNK_MAX_CHARS,
        decreases n - i,
    {
        proof {
            assert(t@.take(i + 1).drop_last() =~= t@.take(i as int));
            assert(t@.take(i + 1).last() == t@[i as int]);
        }
        if t[i] == '\n' {
            add_line(&t, line_start, i, &mut texts, &mut bounds, &mut buf, &mut buf_chars, Ghost(done));
            proof {
                done = done.push(t@.subrange(line_start as int, i as int));
                assert(t@.subrange(i + 1, i + 1) =~= Seq::<char>::empty());
            }
            line_start = i + 1;
        } else {
            proof {
                let prev = done.push(t@.subrange(line_start as int, i as int));
                assert(prev.last() == t@.subrange(line_start as int, i as int));
                assert(t@.subrange(line_start as int, i as int).push(t@[i as int]) =~= t@.subrange(
                    line_start as int,
                    i + 1,
                ));
                assert(prev.update(prev.len() - 1, prev.last().push(t@[i as int])) =~= done.push(
                    t@.subrange(line_start as int, i + 1),
                ));
            }
        }
        i = i + 1;
    }
    add_line(&t, line_start, n, &mut texts, &mut bounds, &mut buf, &mut buf_chars, Ghost(done));
    proof {
        assert(t@.take(n as int) =~= t@);
        done = done.push(t@.subrange(line_start as int, n as int));
        lemma_fold_lengths(paragraphs(done));
    }
    if buf_chars > 0 {
        let ghost before = texts@;
        texts.push(buf);
        proof {
            lemma_views_push(before, buf);
        }
        bounds.push(0);
    } else if bounds.len() > 0 {
        let last = bounds.len() - 1;
        bounds.set(last, 0);
    }
    let m = texts.len();
    let mut k: usize = 0;
    while k < m
        invariant
            m == texts@.len(),
            m == bounds@.len(),
            k <= m,
            chunks@.len() == k,
            forall|j: int| 0 <= j < k ==> (#[trigger] chunks@[j]).text@ == texts@[j]@
                && chunks@[j].pause_ms == bounds@[j],
        decreases m - k,
    {
        let piece = texts[k].clone();
        chunks.push(TtsChunk { text: piece, pause_ms: bounds[k] });
        k = k + 1;
    }
    proof {
        assert(chunks_view(chunks@).0 =~= views(texts@));
        assert(chunks_view(chunks@).1 =~= bounds@);
    }
    chunks
}

/// The packer keeps one pause per finished chunk.
pub proof fn lemma_fold_lengths(paras: Seq<Seq<char>>)
    ensures
        fold_paragraphs(paras).0.len() == fold_paragraphs(paras).1.len(),
    decreases paras.len(),
{
    if paras.len() > 0 {
        lemma_fold_lengths(paras.drop_last());
    }
}


// ---------------------------------------------------------------------------
// Properties of the chunking
// ---------------------------------------------------------------------------

/// A piece that ends a sentence, or a full-length piece of a stretch that
/// holds no sentence boundary at all.
pub open spec fn ends_sentence_or_full(p: Seq<char>) -> bool {
    ||| (p.len() > 0 && is_sentence_boundary(p.last()))
    ||| (p.len() == TTS_CHUNK_MAX_CHARS && forall|i: int|
        0 <= i < p.len() ==> !is_sentence_boundary(#[trigger] p[i]))
}

/// Sentence splitting loses and reorders nothing, every piece holds between
/// one and `TTS_CHUNK_MAX_CHARS` characters, and every piece but the last
/// ends at a sentence boundary unless its whole stretch has none.
pub proof fn lemma_sentence_pieces(s: Seq<char>)
    ensures
        sentence_pieces(s).flatten() == s,
        s.len() > 0 ==> sentence_pieces(s).len() > 0,
        forall|j: int|
            0 <= j < sentence_pieces(s).len() ==> 1 <= (#[trigger] sentence_pieces(s)[j]).len()
                <= TTS_CHUNK_MAX_CHARS,
        forall|j: int|
            0 <= j < sentence_pieces(s).len() - 1 ==> ends_sentence_or_full(
                #[trigger] sentence_pieces(s)[j],
            ),
    decreases s.len(),
{
    let pieces = sentence_pieces(s);
    if s.len() == 0 {
    } else if s.len() <= TTS_CHUNK_MAX_CHARS {
        seq![s].lemma_flatten_one_element();
    } else {
        let w = s.take(TTS_CHUNK_MAX_CHARS as int);
        lemma_boundary_cut_bound(w);
        let k = sentence_cut_len(s);
        let head = s.take(k as int);
        let rest = sentence_pieces(s.skip(k as int));
        lemma_sentence_pieces(s.skip(k as int));
        assert(pieces == seq![head] + rest);
        vstd::seq_lib::lemma_flatten_concat(seq![head], rest);
        seq![head].lemma_flatten_one_element();
        assert(head + s.skip(k as int) =~= s);
        assert forall|j: int| 0 <= j < pieces.len() implies 1 <= (#[trigger] pieces[j]).len()
            <= TTS_CHUNK_MAX_CHARS by {
            if j > 0 {
                assert(pieces[j] == rest[j - 1]);
            }
        }
        assert forall|j: int| 0 <= j < pieces.len() - 1 implies ends_sentence_or_full(
            #[trigger] pieces[j],
        ) by {
            if j > 0 {
                assert(pieces[j] == rest[j - 1]);
            } else {
                if boundary_cut(w) > 0 {
                    assert(head.last() == w[boundary_cut(w) - 1]);
                } else {
                    assert(head =~= w);
                }
            }
        }
    }
}

/// No character of `s` is a newline.
pub open spec fn no_newline(s: Seq<char>) -> bool {
    forall|i: int| 0 <= i < s.len() ==> s[i] != '\n'
}

pub proof fn lemma_split_lines_no_newline(s: Seq<char>)
    ensures
        forall|j: int| 0 <= j < split_newlines(s).len() ==> no_newline(#[trigger] split_newlines(s)[j]),
    decreases s.len(),
{
    if s.len() > 0 {
        lemma_split_lines_no_newline(s.drop_last());
        crate::text::lemma_split_newlines_len(s.drop_last());
        let prev = split_newlines(s.drop_last());
        if s.last() != '\n' {
            assert forall|j: int| 0 <= j < split_newlines(s).len() implies no_newline(
                #[trigger] split_newlines(s)[j],
            ) by {
                if j == prev.len() - 1 {
                    assert(no_newline(prev[j]));
                    assert(split_newlines(s)[j] == prev.last().push(s.last()));
                } else {
                    assert(split_newlines(s)[j] == prev[j]);
                }
            }
        } else {
            assert forall|j: int| 0 <= j < split_newlines(s).len() implies no_newline(
                #[trigger] split_newlines(s)[j],
            ) by {
                if j < prev.len() {
                    assert(split_newlines(s)[j] == prev[j]);
                }
            }
        }
    }
}

pub proof fn lemma_trim_no_newline(s: Seq<char>)
    requires
        no_newline(s),
    ensures
        no_newline(trim(s)),
{
    lemma_trim_start_no_newline(s);
    lemma_trim_end_no_newline(trim_start(s));
}

proof fn lemma_trim_start_no_newline(s: Seq<char>)
    requires
        no_newline(s),
    ensures
        no_newline(trim_start(s)),
    decreases s.len(),
{
    if s.len() > 0 && is_whitespace(s[0]) {
        assert forall|i: int| 0 <= i < s.drop_first().len() implies s.drop_first()[i] != '\n' by {
            assert(s.drop_first()[i] == s[i + 1]);
        }
        lemma_trim_start_no_newline(s.drop_first());
    }
}

proof fn lemma_trim_end_no_newline(s: Seq<char>)
    requires
        no_newline(s),
    ensures
        no_newline(trim_end(s)),
    decreases s.len(),
{
    if s.len() > 0 && is_whitespace(s.last()) {
        assert forall|i: int| 0 <= i < s.drop_last().len() implies s.drop_last()[i] != '\n' by {
            assert(s.drop_last()[i] == s[i]);
        }
        lemma_trim_end_no_newline(s.drop_last());
    }
}

/// Paragraphs are nonempty and, when the lines hold no newline, hold none
/// either.
pub proof fn lemma_paragraphs(lines: Seq<Seq<char>>)
    ensures
        forall|j: int| 0 <= j < paragraphs(lines).len() ==> (#[trigger] paragraphs(lines)[j]).len()
            > 0,
        (forall|j: int| 0 <= j < lines.len() ==> no_newline(#[trigger] lines[j])) ==> forall|
            j: int,
        |
            0 <= j < paragraphs(lines).len() ==> no_newline(#[trigger] paragraphs(lines)[j]),
    decreases lines.len(),
{
    if lines.len() > 0 {
        let init = lines.drop_last();
        let prev = paragraphs(init);
        let ps = paragraphs(lines);
        lemma_paragraphs(init);
        assert forall|j: int| 0 <= j < ps.len() implies (#[trigger] ps[j]).len() > 0 by {
            if j < prev.len() {
                assert(ps[j] == prev[j]);
            }
        }
        if forall|j: int| 0 <= j < lines.len() ==> no_newline(#[trigger] lines[j]) {
            assert forall|j: int| 0 <= j < init.len() implies no_newline(#[trigger] init[j]) by {
                assert(init[j] == lines[j]);
            }
            assert(no_newline(lines[lines.len() - 1]));
            lemma_trim_no_newline(lines.last());
            assert forall|j: int| 0 <= j < ps.len() implies no_newline(#[trigger] ps[j]) by {
                if j < prev.len() {
                    assert(ps[j] == prev[j]);
                }
            }
        }
    }
}

/// What holds of the packer's state between paragraphs.
pub open spec fn packer_ok(st: SplitState) -> bool {
    &&& st.0.len() == st.1.len()
    &&& forall|j: int| 0 <= j < st.0.len() ==> 1 <= (#[trigger] st.0[j]).len() <= TTS_CHUNK_MAX_CHARS
    &&& forall|j: int|
        0 <= j < st.1.len() ==> (#[trigger] st.1[j] == SENTENCE_PAUSE_MS || st.1[j]
            == PARAGRAPH_PAUSE_MS)
    &&& st.1.len() > 0 ==> st.1.last() == PARAGRAPH_PAUSE_MS
    &&& st.2.len() <= TTS_CHUNK_MAX_CHARS
}

proof fn lemma_add_paragraph_ok(st: SplitState, para: Seq<char>)
    requires
        packer_ok(st),
        para.len() > 0,
    ensures
        packer_ok(add_paragraph(st, para)),
{
    let texts = st.0;
    let pauses = st.1;
    let buf = st.2;
    let r = add_paragraph(st, para);
    if para.len() > TTS_CHUNK_MAX_CHARS {
        let texts1 = if buf.len() > 0 { texts.push(buf) } else { texts };
        let pauses1 = if buf.len() > 0 { pauses.push(PARAGRAPH_PAUSE_MS) } else { pauses };
        let pieces = sentence_pieces(para);
        lemma_sentence_pieces(para);
        let pauses2 = pauses1 + sentence_pauses(pieces.len(), SENTENCE_PAUSE_MS);
        assert forall|j: int| 0 <= j < r.0.len() implies 1 <= (#[trigger] r.0[j]).len()
            <= TTS_CHUNK_MAX_CHARS by {
            if j >= texts1.len() {
                assert(r.0[j] == pieces[j - texts1.len()]);
            } else if j < texts.len() {
                assert(r.0[j] == texts[j]);
            }
        }
        assert forall|j: int| 0 <= j < r.1.len() implies (#[trigger] r.1[j] == SENTENCE_PAUSE_MS
            || r.1[j] == PARAGRAPH_PAUSE_MS) by {
            if j < pauses.len() {
                assert(r.1[j] == pauses[j]);
            }
        }
    } else if buf.len() + para.len() + (if buf.len() == 0 { 0int } else { 1int })
        > TTS_CHUNK_MAX_CHARS {
        assert forall|j: int| 0 <= j < r.0.len() implies 1 <= (#[trigger] r.0[j]).len()
            <= TTS_CHUNK_MAX_CHARS by {
            if j < texts.len() {
                assert(r.0[j] == texts[j]);
            }
        }
        assert forall|j: int| 0 <= j < r.1.len() implies (#[trigger] r.1[j] == SENTENCE_PAUSE_MS
            || r.1[j] == PARAGRAPH_PAUSE_MS) by {
            if j < pauses.len() {
                assert(r.1[j] == pauses[j]);
            }
        }
    }
}

proof fn lemma_fold_ok(paras: Seq<Seq<char>>)
    requires
        forall|j: int| 0 <= j < paras.len() ==> (#[trigger] paras[j]).len() > 0,
    ensures
        packer_ok(fold_paragraphs(paras)),
    decreases paras.len(),
{
    if paras.len() > 0 {
        let init = paras.drop_last();
        assert forall|j: int| 0 <= j < init.len() implies (#[trigger] init[j]).len() > 0 by {
            assert(init[j] == paras[j]);
        }
        lemma_fold_ok(init);
        assert(paras.last().len() > 0);
        lemma_add_paragraph_ok(fold_paragraphs(init), paras.last());
    }
}

/// Shape of the chunks of any text: one pause per chunk; every chunk holds
/// between one and `TTS_CHUNK_MAX_CHARS` characters; the pause after every
/// chunk but the last is the sentence or the paragraph pause, and after the
/// last there is none. Blank text gives no chunk, and
/// text that fits in one chunk gives its trimmed self with no pause.
pub proof fn law_chunk_shape(text: Seq<char>)
    ensures
        tts_chunks(text).0.len() == tts_chunks(text).1.len(),
        forall|j: int|
            0 <= j < tts_chunks(text).0.len() ==> 1 <= (#[trigger] tts_chunks(text).0[j]).len()
                <= TTS_CHUNK_MAX_CHARS,
        forall|j: int|
            0 <= j < tts_chunks(text).1.len() - 1 ==> (#[trigger] tts_chunks(text).1[j]
                == SENTENCE_PAUSE_MS || tts_chunks(text).1[j] == PARAGRAPH_PAUSE_MS),
        tts_chunks(text).1.len() > 0 ==> tts_chunks(text).1.last() == 0,
        trim(text).len() == 0 ==> tts_chunks(text).0.len() == 0,
        0 < trim(text).len() <= TTS_CHUNK_MAX_CHARS ==> tts_chunks(text).0 == seq![trim(text)]
            && tts_chunks(text).1 == seq![0u32],
{
    let t = trim(text);
    if t.len() > TTS_CHUNK_MAX_CHARS {
        let paras = paragraphs(split_newlines(t));
        lemma_paragraphs(split_newlines(t));
        lemma_fold_ok(paras);
        let st = fold_paragraphs(paras);
        let r = tts_chunks(text);
        if st.2.len() > 0 {
            assert forall|j: int| 0 <= j < r.0.len() implies 1 <= (#[trigger] r.0[j]).len()
                <= TTS_CHUNK_MAX_CHARS by {
                if j < st.0.len() {
                    assert(r.0[j] == st.0[j]);
                }
            }
            assert forall|j: int| 0 <= j < r.1.len() - 1 implies (#[trigger] r.1[j]
                == SENTENCE_PAUSE_MS || r.1[j] == PARAGRAPH_PAUSE_MS) by {
                assert(r.1[j] == st.1[j]);
            }
        } else {
            assert forall|j: int| 0 <= j < r.1.len() - 1 implies (#[trigger] r.1[j]
                == SENTENCE_PAUSE_MS || r.1[j] == PARAGRAPH_PAUSE_MS) by {
                assert(r.1[j] == st.1[j]);
            }
        }
    }
}


/// `s` with its newlines taken out.
pub open spec fn drop_newlines(s: Seq<char>) -> Seq<char>
    decreases s.len(),
{
    if s.len() == 0 {
        s
    } else {
        let p = drop_newlines(s.drop_last());
        if s.last() == '\n' {
            p
        } else {
            p.push(s.last())
        }
    }
}

proof fn lemma_drop_newlines_add(a: Seq<char>, b: Seq<char>)
    ensures
        drop_newlines(a + b) == drop_newlines(a) + drop_newlines(b),
    decreases b.len(),
{
    if b.len() == 0 {
        assert(a + b =~= a);
        assert(drop_newlines(a) + drop_newlines(b) =~= drop_newlines(a));
    } else {
        assert((a + b).drop_last() =~= a + b.drop_last());
        lemma_drop_newlines_add(a, b.drop_last());
        assert((drop_newlines(a) + drop_newlines(b.drop_last())).push(b.last()) =~= drop_newlines(a)
            + drop_newlines(b.drop_last()).push(b.last()));
    }
}

proof fn lemma_drop_newlines_none(s: Seq<char>)
    requires
        no_newline(s),
    ensures
        drop_newlines(s) == s,
    decreases s.len(),
{
    if s.len() > 0 {
        assert forall|i: int| 0 <= i < s.drop_last().len() implies s.drop_last()[i] != '\n' by {
            assert(s.drop_last()[i] == s[i]);
        }
        lemma_drop_newlines_none(s.drop_last());
        assert(s.drop_last().push(s.last()) =~= s);
    }
}

proof fn lemma_add_paragraph_content(st: SplitState, para: Seq<char>)
    requires
        no_newline(para),
    ensures
        drop_newlines(add_paragraph(st, para).0.flatten() + add_paragraph(st, para).2)
            == drop_newlines(st.0.flatten() + st.2) + para,
{
    let texts = st.0;
    let buf = st.2;
    let r = add_paragraph(st, para);
    let before = texts.flatten() + buf;
    lemma_drop_newlines_none(para);
    texts.lemma_flatten_push(buf);
    if para.len() > TTS_CHUNK_MAX_CHARS {
        let texts1 = if buf.len() > 0 { texts.push(buf) } else { texts };
        let pieces = sentence_pieces(para);
        lemma_sentence_pieces(para);
        vstd::seq_lib::lemma_flatten_concat(texts1, pieces);
        assert(texts1.flatten() =~= before);
        assert(r.0.flatten() + r.2 =~= before + para);
        lemma_drop_newlines_add(before, para);
    } else if buf.len() + para.len() + (if buf.len() == 0 { 0int } else { 1int })
        > TTS_CHUNK_MAX_CHARS {
        assert(r.0.flatten() + r.2 =~= before + para);
        lemma_drop_newlines_add(before, para);
    } else if buf.len() == 0 {
        assert(r.0.flatten() + r.2 =~= before + para);
        lemma_drop_newlines_add(before, para);
    } else {
        let nl = seq!['\n'];
        assert(r.0.flatten() + r.2 =~= (before + nl) + para);
        lemma_drop_newlines_add(before + nl, para);
        lemma_drop_newlines_add(before, nl);
        assert(nl.len() == 1 && nl.last() == '\n');
        assert(nl.drop_last() =~= Seq::<char>::empty());
        assert(drop_newlines(nl.drop_last()) =~= Seq::<char>::empty());
        assert(drop_newlines(nl) =~= Seq::<char>::empty());
        assert(drop_newlines(before) + drop_newlines(nl) =~= drop_newlines(before));
    }
}

proof fn lemma_fold_content(paras: Seq<Seq<char>>)
    requires
        forall|j: int| 0 <= j < paras.len() ==> no_newline(#[trigger] paras[j]),
    ensures
        drop_newlines(fold_paragraphs(paras).0.flatten() + fold_paragraphs(paras).2)
            == paras.flatten(),
    decreases paras.len(),
{
    if paras.len() == 0 {
        let st = fold_paragraphs(paras);
        assert(st.0.flatten() + st.2 =~= Seq::<char>::empty());
    } else {
        let init = paras.drop_last();
        assert forall|j: int| 0 <= j < init.len() implies no_newline(#[trigger] init[j]) by {
            assert(init[j] == paras[j]);
        }
        lemma_fold_content(init);
        assert(no_newline(paras[paras.len() - 1]));
        lemma_add_paragraph_content(fold_paragraphs(init), paras.last());
        init.lemma_flatten_push(paras.last());
        assert(init.push(paras.last()) =~= paras);
    }
}

/// Chunking loses, adds and reorders no text: once their newlines are taken
/// out, the chunks of a text too long for one chunk concatenate to its
/// paragraphs (its trimmed, nonblank lines) concatenated.
pub proof fn law_chunks_keep_text(text: Seq<char>)
    requires
        trim(text).len() > TTS_CHUNK_MAX_CHARS,
    ensures
        drop_newlines(tts_chunks(text).0.flatten()) == paragraphs(split_newlines(trim(text))).flatten(),
{
    let t = trim(text);
    let lines = split_newlines(t);
    lemma_split_lines_no_newline(t);
    lemma_paragraphs(lines);
    let paras = paragraphs(lines);
    lemma_fold_content(paras);
    let st = fold_paragraphs(paras);
    st.0.lemma_flatten_push(st.2);
    if st.2.len() == 0 {
        assert(st.0.flatten() + st.2 =~= st.0.flatten());
    }
}


/// `s` with its whitespace taken out.
pub open spec fn drop_whitespace(s: Seq<char>) -> Seq<char>
    decreases s.len(),
{
    if s.len() == 0 {
        s
    } else {
        let p = drop_whitespace(s.drop_last());
        if is_whitespace(s.last()) {
            p
        } else {
            p.push(s.last())
        }
    }
}

proof fn lemma_drop_whitespace_add(a: Seq<char>, b: Seq<char>)
    ensures
        drop_whitespace(a + b) == drop_whitespace(a) + drop_whitespace(b),
    decreases b.len(),
{
    if b.len() == 0 {
        assert(a + b =~= a);
        assert(drop_whitespace(a) + drop_whitespace(b) =~= drop_whitespace(a));
    } else {
        assert((a + b).drop_last() =~= a + b.drop_last());
        lemma_drop_whitespace_add(a, b.drop_last());
        assert((drop_whitespace(a) + drop_whitespace(b.drop_last())).push(b.last()) =~= drop_whitespace(
            a,
        ) + drop_whitespace(b.drop_last()).push(b.last()));
    }
}

proof fn lemma_drop_whitespace_trim_start(s: Seq<char>)
    ensures
        drop_whitespace(trim_start(s)) == drop_whitespace(s),
    decreases s.len(),
{
    if s.len() > 0 && is_whitespace(s[0]) {
        lemma_drop_whitespace_trim_start(s.drop_first());
        let h = seq![s[0]];
        assert(h + s.drop_first() =~= s);
        lemma_drop_whitespace_add(h, s.drop_first());
        assert(h.drop_last() =~= Seq::<char>::empty());
        assert(drop_whitespace(h.drop_last()) =~= Seq::<char>::empty());
        assert(h.last() == s[0]);
        assert(drop_whitespace(h) =~= Seq::<char>::empty());
        assert(drop_whitespace(h) + drop_whitespace(s.drop_first()) =~= drop_whitespace(s.drop_first()));
    }
}

proof fn lemma_drop_whitespace_trim_end(s: Seq<char>)
    ensures
        drop_whitespace(trim_end(s)) == drop_whitespace(s),
    decreases s.len(),
{
    if s.len() > 0 && is_whitespace(s.last()) {
        lemma_drop_whitespace_trim_end(s.drop_last());
    }
}

proof fn lemma_drop_whitespace_trim(s: Seq<char>)
    ensures
        drop_whitespace(trim(s)) == drop_whitespace(s),
{
    lemma_drop_whitespace_trim_start(s);
    lemma_drop_whitespace_trim_end(trim_start(s));
}

proof fn lemma_drop_whitespace_newlines(s: Seq<char>)
    ensures
        drop_whitespace(drop_newlines(s)) == drop_whitespace(s),
    decreases s.len(),
{
    if s.len() > 0 {
        lemma_drop_whitespace_newlines(s.drop_last());
        let p = drop_newlines(s.drop_last());
        if s.last() != '\n' {
            assert(p.push(s.last()).drop_last() =~= p);
        }
    }
}

proof fn lemma_split_newlines_flatten(s: Seq<char>)
    ensures
        split_newlines(s).flatten() == drop_newlines(s),
    decreases s.len(),
{
    if s.len() == 0 {
        seq![Seq::<char>::empty()].lemma_flatten_one_element();
    } else {
        lemma_split_newlines_flatten(s.drop_last());
        let prev = split_newlines(s.drop_last());
        crate::text::lemma_split_newlines_len(s.drop_last());
        if s.last() == '\n' {
            prev.lemma_flatten_push(Seq::<char>::empty());
            assert(prev.flatten() + Seq::<char>::empty() =~= prev.flatten());
        } else {
            let init = prev.drop_last();
            let c = s.last();
            assert(init.push(prev.last()) =~= prev);
            init.lemma_flatten_push(prev.last());
            assert(prev.update(prev.len() - 1, prev.last().push(c)) =~= init.push(prev.last().push(c)));
            init.lemma_flatten_push(prev.last().push(c));
            assert(init.flatten() + prev.last().push(c) =~= (init.flatten() + prev.last()).push(c));
        }
    }
}

proof fn lemma_drop_whitespace_paragraphs(lines: Seq<Seq<char>>)
    ensures
        drop_whitespace(paragraphs(lines).flatten()) == drop_whitespace(lines.flatten()),
    decreases lines.len(),
{
    if lines.len() > 0 {
        let init = lines.drop_last();
        let l = lines.last();
        lemma_drop_whitespace_paragraphs(init);
        assert(init.push(l) =~= lines);
        init.lemma_flatten_push(l);
        lemma_drop_whitespace_add(init.flatten(), l);
        lemma_drop_whitespace_trim(l);
        let prev = paragraphs(init);
        if trim(l).len() == 0 {
            assert(trim(l) =~= Seq::<char>::empty());
            assert(drop_whitespace(l) == drop_whitespace(Seq::<char>::empty()));
            assert(drop_whitespace(init.flatten()) + drop_whitespace(l) =~= drop_whitespace(init.flatten()));
        } else {
            prev.lemma_flatten_push(trim(l));
            lemma_drop_whitespace_add(prev.flatten(), trim(l));
        }
    } else {
        assert(paragraphs(lines).flatten() =~= lines.flatten());
    }
}

/// Chunking keeps every visible character, in order: the chunks of any
/// text, concatenated, hold exactly the text's non-whitespace characters.
pub proof fn law_chunks_keep_visible_text(text: Seq<char>)
    ensures
        drop_whitespace(tts_chunks(text).0.flatten()) == drop_whitespace(text),
{
    let t = trim(text);
    lemma_drop_whitespace_trim(text);
    if t.len() == 0 {
        assert(t =~= Seq::<char>::empty());
        assert(tts_chunks(text).0.flatten() =~= Seq::<char>::empty());
    } else if t.len() <= TTS_CHUNK_MAX_CHARS {
        seq![t].lemma_flatten_one_element();
    } else {
        law_chunks_keep_text(text);
        let f = tts_chunks(text).0.flatten();
        let lines = split_newlines(t);
        lemma_drop_whitespace_newlines(f);
        lemma_drop_whitespace_paragraphs(lines);
        lemma_split_newlines_flatten(t);
        lemma_drop_whitespace_newlines(t);
    }
}


// ---------------------------------------------------------------------------
// Grouping chunks into synthesis sessions
// ---------------------------------------------------------------------------

/// The text and pause of a chunk.
pub type ChunkView = (Seq<char>, u32);

/// The texts and pauses of a sequence of chunks, chunk by chunk.
pub open spec fn chunk_pairs(v: Seq<TtsChunk>) -> Seq<ChunkView> {
    v.map_values(|c: TtsChunk| (c.text@, c.pause_ms))
}

/// Number of characters of `s`.
pub open spec fn text_len(s: Seq<char>) -> nat {
    s.len()
}

/// Total number of characters of the texts of `cs`.
pub open spec fn chars_total(cs: Seq<ChunkView>) -> nat
    decreases cs.len(),
{
    if cs.len() == 0 {
        0
    } else {
        chars_total(cs.drop_last()) + text_len(cs.last().0)
    }
}

/// One past the last chunk of `cur` that ends a paragraph (a pause of at
/// least `PARAGRAPH_PAUSE_MS`), or 0 when none does.
pub open spec fn last_paragraph_end(cur: Seq<ChunkView>) -> nat
    decreases cur.len(),
{
    if cur.len() == 0 {
        0
    } else if cur.last().1 >= PARAGRAPH_PAUSE_MS {
        cur.len()
    } else {
        last_paragraph_end(cur.drop_last())
    }
}

/// Where a full session is cut: after its last paragraph end, else at its end.
pub open spec fn session_cut(cur: Seq<ChunkView>) -> nat {
    if last_paragraph_end(cur) == 0 {
        cur.len()
    } else {
        last_paragraph_end(cur)
    }
}

/// Finished sessions and the session being filled.
pub type SessionState = (Seq<Seq<ChunkView>>, Seq<ChunkView>);

/// Makes room for `n` more characters in the open session: while it is nonempty
/// and `n` more characters would take it past `limit`, the open session is closed
/// up to its cut, the chunks after the cut staying open.
pub open spec fn close_for(st: SessionState, n: nat, limit: nat) -> SessionState
    decreases st.1.len(),
{
    let cur = st.1;
    if cur.len() > 0 && chars_total(cur) + n > limit {
        proof {
            lemma_last_paragraph_end(cur);
        }
        let k = session_cut(cur) as int;
        close_for((st.0.push(cur.take(k)), cur.skip(k)), n, limit)
    } else {
        st
    }
}

/// One step of the grouping: sessions are closed until the chunk fits in
/// the open one (or the open one is empty); then the chunk joins it.
pub open spec fn add_chunk(st: SessionState, c: ChunkView, limit: nat) -> SessionState {
    let closed = close_for(st, text_len(c.0), limit);
    (closed.0, closed.1.push(c))
}

/// The grouping's state after the chunks `cs`, in order.
pub open spec fn fold_chunks(cs: Seq<ChunkView>, limit: nat) -> SessionState
    decreases cs.len(),
{
    if cs.len() == 0 {
        (seq![], seq![])
    } else {
        add_chunk(fold_chunks(cs.drop_last(), limit), cs.last(), limit)
    }
}

/// The sessions of `cs` under `limit` characters: none for no chunk, one when all
/// fit, else those the grouping closes followed by the one left open.
pub open spec fn sessions_of(cs: Seq<ChunkView>, limit: nat) -> Seq<Seq<ChunkView>> {
    if cs.len() == 0 {
        seq![]
    } else if chars_total(cs) <= limit {
        seq![cs]
    } else {
        let st = fold_chunks(cs, limit);
        if st.1.len() > 0 {
            st.0.push(st.1)
        } else {
            st.0
        }
    }
}

/// The texts and pauses of the chunks a vector of references points to.
pub open spec fn derefs(v: Seq<&TtsChunk>) -> Seq<ChunkView> {
    v.map_values(|r: &TtsChunk| (r.text@, r.pause_ms))
}

/// The sessions a vector of reference vectors points to.
pub open spec fn sessions_view(v: Seq<Vec<&TtsChunk>>) -> Seq<Seq<ChunkView>> {
    v.map_values(|s: Vec<&TtsChunk>| derefs(s@))
}

pub proof fn lemma_chars_total_add(a: Seq<ChunkView>, b: Seq<ChunkView>)
    ensures
        chars_total(a + b) == chars_total(a) + chars_total(b),
    decreases b.len(),
{
    if b.len() == 0 {
        assert(a + b =~= a);
    } else {
        assert((a + b).drop_last() =~= a + b.drop_last());
        lemma_chars_total_add(a, b.drop_last());
    }
}

pub proof fn lemma_last_paragraph_end(cur: Seq<ChunkView>)
    ensures
        last_paragraph_end(cur) <= cur.len(),
        last_paragraph_end(cur) > 0 ==> cur[last_paragraph_end(cur) - 1].1
            >= PARAGRAPH_PAUSE_MS,
        forall|j: int|
            last_paragraph_end(cur) <= j < cur.len() ==> (#[trigger] cur[j]).1
                < PARAGRAPH_PAUSE_MS,
    decreases cur.len(),
{
    if cur.len() > 0 && cur.last().1 < PARAGRAPH_PAUSE_MS {
        lemma_last_paragraph_end(cur.drop_last());
        assert forall|j: int| last_paragraph_end(cur) <= j < cur.len() implies (
        #[trigger] cur[j]).1 < PARAGRAPH_PAUSE_MS by {
            if j < cur.len() - 1 {
                assert(cur[j] == cur.drop_last()[j]);
            }
        }
    }
}

/// Closing sessions to make room keeps every chunk, in order, and leaves
/// the sessions closed before untouched. Each session it closes is
/// nonempty, cut at a paragraph end where it holds one, and no larger than
/// the open session was; afterwards the open session is empty or has room
/// for `n` characters, and it is no larger than before.
pub proof fn lemma_close_for(st: SessionState, n: nat, limit: nat)
    ensures
        close_for(st, n, limit).0.flatten() + close_for(st, n, limit).1 == st.0.flatten() + st.1,
        close_for(st, n, limit).0.len() >= st.0.len(),
        forall|j: int| 0 <= j < st.0.len() ==> #[trigger] close_for(st, n, limit).0[j] == st.0[j],
        forall|j: int|
            st.0.len() <= j < close_for(st, n, limit).0.len() ==> (#[trigger] close_for(
                st,
                n,
                limit,
            ).0[j]).len() > 0 && cut_at_paragraph(close_for(st, n, limit).0[j]) && chars_total(
                close_for(st, n, limit).0[j],
            ) <= chars_total(st.1),
        close_for(st, n, limit).1.len() == 0 || chars_total(close_for(st, n, limit).1) + n
            <= limit,
        chars_total(close_for(st, n, limit).1) <= chars_total(st.1),
    decreases st.1.len(),
{
    let cur = st.1;
    if cur.len() > 0 && chars_total(cur) + n > limit {
        lemma_last_paragraph_end(cur);
        let k = session_cut(cur) as int;
        let closed = cur.take(k);
        let rest = cur.skip(k);
        let next = (st.0.push(closed), rest);
        lemma_close_for(next, n, limit);
        assert(closed + rest =~= cur);
        lemma_chars_total_add(closed, rest);
        st.0.lemma_flatten_push(closed);
        assert(st.0.flatten() + closed + rest =~= st.0.flatten() + cur);
        if last_paragraph_end(cur) > 0 {
            assert(closed.last() == cur[k - 1]);
        } else {
            assert(closed =~= cur);
            assert forall|i: int| 0 <= i < closed.len() implies (#[trigger] closed[i]).1
                < PARAGRAPH_PAUSE_MS by {
                assert(closed[i] == cur[i]);
            }
        }
        let r = close_for(st, n, limit);
        assert(r == close_for(next, n, limit));
        assert forall|j: int| 0 <= j < st.0.len() implies #[trigger] r.0[j] == st.0[j] by {
            assert(r.0[j] == next.0[j]);
        }
        assert(r.0[st.0.len() as int] == closed) by {
            assert(r.0[st.0.len() as int] == next.0[st.0.len() as int]);
        }
    }
}

/// The grouping keeps every chunk, in order, and closes no empty session.
pub proof fn lemma_fold_chunks(cs: Seq<ChunkView>, limit: nat)
    ensures
        fold_chunks(cs, limit).0.flatten() + fold_chunks(cs, limit).1 == cs,
        forall|j: int|
            0 <= j < fold_chunks(cs, limit).0.len() ==> (#[trigger] fold_chunks(
                cs,
                limit,
            ).0[j]).len() > 0,
    decreases cs.len(),
{
    if cs.len() > 0 {
        let init = cs.drop_last();
        lemma_fold_chunks(init, limit);
        let st = fold_chunks(init, limit);
        let c = cs.last();
        let closed = close_for(st, text_len(c.0), limit);
        lemma_close_for(st, text_len(c.0), limit);
        assert(closed.0.flatten() + closed.1.push(c) =~= (closed.0.flatten() + closed.1).push(c));
        assert(init.push(c) =~= cs);
        let r = fold_chunks(cs, limit);
        assert forall|j: int| 0 <= j < r.0.len() implies (#[trigger] r.0[j]).len() > 0 by {
            if j < st.0.len() {
                assert(r.0[j] == st.0[j]);
            }
        }
    }
}

/// Grouping into sessions keeps every chunk once, in order, and makes no
/// empty session; when all chunks fit within the limit they form one
/// session.
pub proof fn law_sessions_partition(cs: Seq<ChunkView>, limit: nat)
    ensures
        sessions_of(cs, limit).flatten() == cs,
        forall|j: int|
            0 <= j < sessions_of(cs, limit).len() ==> (#[trigger] sessions_of(cs, limit)[j]).len()
                > 0,
        cs.len() > 0 && chars_total(cs) <= limit ==> sessions_of(cs, limit) == seq![cs],
{
    let r = sessions_of(cs, limit);
    if cs.len() == 0 {
    } else if chars_total(cs) <= limit {
        seq![cs].lemma_flatten_one_element();
    } else {
        lemma_fold_chunks(cs, limit);
        let st = fold_chunks(cs, limit);
        st.0.lemma_flatten_push(st.1);
        if st.1.len() > 0 {
            assert forall|j: int| 0 <= j < r.len() implies (#[trigger] r[j]).len() > 0 by {
                if j < st.0.len() {
                    assert(r[j] == st.0[j]);
                }
            }
        } else {
            assert(st.0.flatten() + st.1 =~= st.0.flatten());
        }
    }
}

/// A session ends with a paragraph's last chunk, or holds no paragraph end
/// at all.
pub open spec fn cut_at_paragraph(s: Seq<ChunkView>) -> bool {
    s.last().1 >= PARAGRAPH_PAUSE_MS || forall|i: int| 0 <= i < s.len() ==> (#[trigger] s[i]).1
        < PARAGRAPH_PAUSE_MS
}

proof fn lemma_fold_cuts(cs: Seq<ChunkView>, limit: nat)
    ensures
        forall|j: int|
            0 <= j < fold_chunks(cs, limit).0.len() ==> cut_at_paragraph(
                #[trigger] fold_chunks(cs, limit).0[j],
            ),
    decreases cs.len(),
{
    if cs.len() > 0 {
        let init = cs.drop_last();
        lemma_fold_cuts(init, limit);
        let st = fold_chunks(init, limit);
        let c = cs.last();
        lemma_close_for(st, text_len(c.0), limit);
        let r = fold_chunks(cs, limit);
        assert forall|j: int| 0 <= j < r.0.len() implies cut_at_paragraph(#[trigger] r.0[j]) by {
            if j < st.0.len() {
                assert(r.0[j] == st.0[j]);
            }
        }
    }
}

/// Sessions break at paragraph ends where they can: every session but the
/// last ends with a paragraph's last chunk, unless it holds no paragraph end
/// at all.
pub proof fn law_sessions_cut_at_paragraphs(cs: Seq<ChunkView>, limit: nat)
    ensures
        forall|j: int|
            0 <= j < sessions_of(cs, limit).len() - 1 ==> cut_at_paragraph(
                #[trigger] sessions_of(cs, limit)[j],
            ),
{
    let r = sessions_of(cs, limit);
    if cs.len() > 0 && chars_total(cs) > limit {
        lemma_fold_cuts(cs, limit);
        let st = fold_chunks(cs, limit);
        assert forall|j: int| 0 <= j < r.len() - 1 implies cut_at_paragraph(#[trigger] r[j]) by {
            assert(r[j] == st.0[j]);
        }
    }
}

proof fn lemma_fold_within(cs: Seq<ChunkView>, limit: nat)
    requires
        forall|j: int| 0 <= j < cs.len() ==> text_len((#[trigger] cs[j]).0) <= limit,
    ensures
        forall|j: int|
            0 <= j < fold_chunks(cs, limit).0.len() ==> chars_total(
                #[trigger] fold_chunks(cs, limit).0[j],
            ) <= limit,
        chars_total(fold_chunks(cs, limit).1) <= limit,
    decreases cs.len(),
{
    if cs.len() > 0 {
        let init = cs.drop_last();
        assert forall|j: int| 0 <= j < init.len() implies text_len((#[trigger] init[j]).0) <= limit by {
            assert(init[j] == cs[j]);
        }
        lemma_fold_within(init, limit);
        let st = fold_chunks(init, limit);
        let c = cs.last();
        assert(text_len(cs[cs.len() - 1].0) <= limit);
        let closed = close_for(st, text_len(c.0), limit);
        lemma_close_for(st, text_len(c.0), limit);
        let r = fold_chunks(cs, limit);
        assert forall|j: int| 0 <= j < r.0.len() implies chars_total(#[trigger] r.0[j]) <= limit by {
            if j < st.0.len() {
                assert(r.0[j] == st.0[j]);
            }
        }
        assert(closed.1.push(c).drop_last() =~= closed.1);
    }
}

/// Sessions stay within the limit: when every chunk alone fits in `limit`
/// characters, every session's chunks together do.
pub proof fn law_sessions_within_limit(cs: Seq<ChunkView>, limit: nat)
    requires
        forall|j: int| 0 <= j < cs.len() ==> text_len((#[trigger] cs[j]).0) <= limit,
    ensures
        forall|j: int|
            0 <= j < sessions_of(cs, limit).len() ==> chars_total(
                #[trigger] sessions_of(cs, limit)[j],
            ) <= limit,
{
    let r = sessions_of(cs, limit);
    if cs.len() > 0 && chars_total(cs) > limit {
        lemma_fold_within(cs, limit);
        let st = fold_chunks(cs, limit);
        assert forall|j: int| 0 <= j < r.len() implies chars_total(#[trigger] r[j]) <= limit by {
            if j < st.0.len() {
                assert(r[j] == st.0[j]);
            }
        }
    }
}

/// Number of characters of a chunk's text.
fn chunk_chars(c: &TtsChunk) -> (n: usize)
    ensures
        n == text_len(c.text@),
{
    c.text.as_str().unicode_len()
}


/// Sum of the character counts of the texts of `v`.
fn refs_chars(v: &Vec<&TtsChunk>) -> (n: usize)
    requires
        chars_total(derefs(v@)) <= usize::MAX,
    ensures
        n == chars_total(derefs(v@)),
{
    let ghost d = derefs(v@);
    let mut sum: usize = 0;
    let mut m: usize = 0;
    while m < v.len()
        invariant
            d == derefs(v@),
            m <= v@.len(),
            sum == chars_total(d.take(m as int)),
            chars_total(d) <= usize::MAX,
        decreases v@.len() - m,
    {
        proof {
            assert(d.take(m + 1).drop_last() =~= d.take(m as int));
            assert(d.take(m + 1) + d.skip(m + 1) =~= d);
            lemma_chars_total_add(d.take(m + 1), d.skip(m + 1));
        }
        sum = sum + chunk_chars(v[m]);
        m = m + 1;
    }
    proof {
        assert(d.take(m as int) =~= d);
    }
    sum
}

/// Where to close the session `v`: after its last chunk that ends a
/// paragraph, or at its end when none does.
fn session_cut_exec(v: &Vec<&TtsChunk>) -> (k: usize)
    ensures
        k == session_cut(derefs(v@)),
{
    let ghost d = derefs(v@);
    let mut k = v.len();
    assert(d.take(k as int) =~= d);
    while k > 0 && v[k - 1].pause_ms < PARAGRAPH_PAUSE_MS
        invariant
            d == derefs(v@),
            k <= v@.len(),
            last_paragraph_end(d) == last_paragraph_end(d.take(k as int)),
        decreases k,
    {
        assert(d.take(k as int).drop_last() =~= d.take(k - 1));
        k = k - 1;
    }
    if k == 0 {
        v.len()
    } else {
        k
    }
}

/// Groups `chunks` into sessions of consecutive chunks for one synthesis
/// connection each, aiming at no more than `limit` characters of text per
/// session. When all chunks fit they form one session. Otherwise chunks are
/// added in order; while one would take the open session past the limit,
/// the open session is closed after its last paragraph-ending chunk (or at
/// its end when it has none), the chunks after that cut staying open; then
/// the chunk joins the open session.
pub fn group_chunks_into_sessions<'a>(chunks: &'a [TtsChunk], limit: usize) -> (sessions: Vec<
    Vec<&'a TtsChunk>,
>)
    requires
        chars_total(chunk_pairs(chunks@)) <= usize::MAX,
    ensures
        sessions_view(sessions@) == sessions_of(chunk_pairs(chunks@), limit as nat),
{
    let n = chunks.len();
    let mut sessions: Vec<Vec<&'a TtsChunk>> = Vec::new();
    if n == 0 {
        assert(sessions_view(sessions@) =~= seq![]);
        return sessions;
    }
    let mut total: usize = 0;
    let mut i: usize = 0;
    while i < n
        invariant
            n == chunk_pairs(chunks@).len(),
            i <= n,
            total == chars_total(chunk_pairs(chunks@).take(i as int)),
            chars_total(chunk_pairs(chunks@)) <= usize::MAX,
        decreases n - i,
    {
        proof {
            assert(chunk_pairs(chunks@).take(i + 1).drop_last() =~= chunk_pairs(chunks@).take(i as int));
            assert(chunk_pairs(chunks@).take(i + 1) + chunk_pairs(chunks@).skip(i + 1) =~= chunk_pairs(chunks@));
            lemma_chars_total_add(chunk_pairs(chunks@).take(i + 1), chunk_pairs(chunks@).skip(i + 1));
        }
        total = total + chunk_chars(&chunks[i]);
        i = i + 1;
    }
    assert(chunk_pairs(chunks@).take(n as int) =~= chunk_pairs(chunks@));
    if total <= limit {
        let mut all: Vec<&'a TtsChunk> = Vec::new();
        let mut j: usize = 0;
        while j < n
            invariant
                n == chunk_pairs(chunks@).len(),
                j <= n,
                derefs(all@) == chunk_pairs(chunks@).take(j as int),
            decreases n - j,
        {
            let ghost before = all@;
            all.push(&chunks[j]);
            assert(derefs(all@) =~= derefs(before).push(chunk_pairs(chunks@)[j as int]));
            assert(chunk_pairs(chunks@).take(j + 1) =~= chunk_pairs(chunks@).take(j as int).push(chunk_pairs(chunks@)[j as int]));
            j = j + 1;
        }
        sessions.push(all);
        assert(sessions_view(sessions@) =~= seq![chunk_pairs(chunks@)]);
        return sessions;
    }
    let mut current: Vec<&'a TtsChunk> = Vec::new();
    let mut current_len: usize = 0;
    i = 0;
    assert(chunk_pairs(chunks@).take(0) =~= Seq::<ChunkView>::empty());
    assert(sessions_view(sessions@) =~= seq![]);
    assert(derefs(current@) =~= seq![]);
    while i < n
        invariant
            n == chunk_pairs(chunks@).len(),
            i <= n,
            chars_total(chunk_pairs(chunks@)) <= usize::MAX,
            (sessions_view(sessions@), derefs(current@)) == fold_chunks(
                chunk_pairs(chunks@).take(i as int),
                limit as nat,
            ),
            current_len == chars_total(derefs(current@)),
        decreases n - i,
    {
        let c: &'a TtsChunk = &chunks[i];
        let ghost pre = chunk_pairs(chunks@).take(i as int);
        let ghost cur = derefs(current@);
        proof {
            lemma_fold_chunks(pre, limit as nat);
            let flat = fold_chunks(pre, limit as nat).0.flatten();
            lemma_chars_total_add(flat, cur);
            assert(chunk_pairs(chunks@).take(i + 1).drop_last() =~= pre);
            assert(chunk_pairs(chunks@).take(i + 1) + chunk_pairs(chunks@).skip(i + 1) =~= chunk_pairs(chunks@));
            lemma_chars_total_add(chunk_pairs(chunks@).take(i + 1), chunk_pairs(chunks@).skip(i + 1));
            assert(chars_total(cur) + text_len(c.text@) <= chars_total(chunk_pairs(chunks@)));
        }
        let clen = chunk_chars(c);
        let ghost st0 = (sessions_view(sessions@), cur);
        while current.len() > 0 && current_len + clen > limit
            invariant
                close_for((sessions_view(sessions@), derefs(current@)), clen as nat, limit as nat)
                    == close_for(st0, clen as nat, limit as nat),
                current_len == chars_total(derefs(current@)),
                chars_total(derefs(current@)) <= chars_total(cur),
                chars_total(cur) + clen <= usize::MAX,
            decreases current.len(),
        {
            let ghost cv = derefs(current@);
            let split_at = session_cut_exec(&current);
            proof {
                lemma_last_paragraph_end(cv);
            }
            let remainder = current.split_off(split_at);
            let ghost before = sessions@;
            sessions.push(current);
            current = remainder;
            proof {
                assert(derefs(sessions@.last()@) =~= cv.take(split_at as int));
                assert(sessions_view(sessions@) =~= sessions_view(before).push(cv.take(split_at as int)));
                assert(derefs(current@) =~= cv.skip(split_at as int));
                assert(cv.take(split_at as int) + cv.skip(split_at as int) =~= cv);
                lemma_chars_total_add(cv.take(split_at as int), cv.skip(split_at as int));
            }
            current_len = refs_chars(&current);
        }
        let ghost open = derefs(current@);
        current.push(c);
        current_len = current_len + clen;
        proof {
            assert(derefs(current@) =~= open.push((c.text@, c.pause_ms)));
            assert(open.push((c.text@, c.pause_ms)).drop_last() =~= open);
            assert(chunk_pairs(chunks@).take(i + 1).last() == chunk_pairs(chunks@)[i as int]);
        }
        i = i + 1;
    }
    if current.len() > 0 {
        sessions.push(current);
    }
    sessions
}

} // verus!
