//! Joining the audio of a line synthesised in chunks: the chunk files with
//! a silence after each (but the last), through FFmpeg's concat demuxer;
//! and the FFmpeg runs that make a silence and re-encode a file.

use vstd::prelude::*;
use crate::fmt::{decimal, push_decimal, push_seconds_fixed3, seconds_fixed3};
use crate::text::{append_str, chars_of, owned, push_char, views};

verus! {

broadcast use vstd::string::group_string_axioms;

/// One file of a concatenation.
#[derive(Clone, Debug, PartialEq)]
pub enum MergePart {
    /// A chunk's audio file.
    Audio(String),
    /// The silence of `ms` milliseconds made after chunk `index`.
    Silence { index: usize, ms: u32 },
}

/// How the chunk files become the line's file.
#[derive(Clone, Debug, PartialEq)]
pub enum MergePlan {
    /// A single chunk: its file is copied.
    Copy(String),
    /// The parts, concatenated in order.
    Concat(Vec<MergePart>),
}

/// A part as plain values: `(path, None)` for audio, `("", Some((index,
/// ms)))` for a silence.
pub open spec fn part_view(p: MergePart) -> (Seq<char>, Option<(nat, u32)>) {
    match p {
        MergePart::Audio(a) => (a@, None),
        MergePart::Silence { index, ms } => (Seq::<char>::empty(), Some((index as nat, ms))),
    }
}

pub open spec fn parts_view(v: Seq<MergePart>) -> Seq<(Seq<char>, Option<(nat, u32)>)> {
    v.map_values(|p: MergePart| part_view(p))
}

/// The chunks as plain values: path and pause after it.
pub open spec fn chunk_views(c: Seq<(String, u32)>) -> Seq<(Seq<char>, u32)> {
    c.map_values(|x: (String, u32)| (x.0@, x.1))
}

/// The parts of the first `k` of the `n` chunks: each chunk's audio, then
/// its silence when it has a pause and is not the last chunk.
pub open spec fn merge_parts(c: Seq<(Seq<char>, u32)>, n: nat, k: nat) -> Seq<(Seq<char>, Option<(nat, u32)>)>
    decreases k,
{
    if k == 0 {
        seq![]
    } else {
        let i = (k - 1) as nat;
        let prev = merge_parts(c, n, i) + seq![(c[i as int].0, None::<(nat, u32)>)];
        if i + 1 < n && c[i as int].1 > 0 {
            prev.push((Seq::<char>::empty(), Some((i, c[i as int].1))))
        } else {
            prev
        }
    }
}

/// Plans the merge of the chunk files `chunks` (path, pause after it): an
/// error for none, a copy of a single one, else the concatenation of
/// [`merge_parts`].
pub fn plan_merge(chunks: &[(String, u32)]) -> (r: Result<MergePlan, String>)
    ensures
        chunks@.len() == 0 ==> (r matches Err(m) && m@ == "no audio chunks to merge"@),
        chunks@.len() == 1 ==> (r matches Ok(MergePlan::Copy(p)) && p@ == chunks@[0].0@),
        chunks@.len() > 1 ==> (r matches Ok(MergePlan::Concat(v)) && parts_view(v@) == merge_parts(
            chunk_views(chunks@),
            chunks@.len(),
            chunks@.len(),
        )),
{
    let n = chunks.len();
    if n == 0 {
        return Err(owned("no audio chunks to merge"));
    }
    if n == 1 {
        return Ok(MergePlan::Copy(chunks[0].0.clone()));
    }
    let ghost c = chunk_views(chunks@);
    let mut parts: Vec<MergePart> = Vec::new();
    let mut i: usize = 0;
    while i < n
        invariant
            n == chunks@.len(),
            n > 1,
            i <= n,
            c == chunk_views(chunks@),
            parts_view(parts@) == merge_parts(c, n as nat, i as nat),
        decreases n - i,
    {
        let ghost before = parts@;
        let audio = MergePart::Audio(chunks[i].0.clone());
        parts.push(audio);
        assert(parts_view(parts@) =~= parts_view(before).push(part_view(audio)));
        let pause = chunks[i].1;
        if i + 1 < n && pause > 0 {
            let ghost mid = parts@;
            let sil = MergePart::Silence { index: i, ms: pause };
            parts.push(sil);
            assert(parts_view(parts@) =~= parts_view(mid).push(part_view(sil)));
        }
        proof {
            assert(c[i as int] == (chunks@[i as int].0@, chunks@[i as int].1));
            assert(merge_parts(c, n as nat, (i + 1) as nat) == (if i + 1 < n && c[i as int].1 > 0 {
                (merge_parts(c, n as nat, i as nat) + seq![(c[i as int].0, None::<(nat, u32)>)]).push(
                    (Seq::<char>::empty(), Some((i as nat, c[i as int].1))),
                )
            } else {
                merge_parts(c, n as nat, i as nat) + seq![(c[i as int].0, None::<(nat, u32)>)]
            }));
        }
        i = i + 1;
    }
    Ok(MergePlan::Concat(parts))
}

/// The name of the temporary file of the silence after chunk `i`.
pub open spec fn silence_file_text(i: nat) -> Seq<char> {
    "tts_silence_"@ + decimal(i) + ".mp3"@
}

/// Builds [`silence_file_text`].
pub fn silence_file_name(i: usize) -> (r: String)
    ensures
        r@ == silence_file_text(i as nat),
{
    let mut r = owned("tts_silence_");
    push_decimal(&mut r, i as u128);
    append_str(&mut r, ".mp3");
    r
}

/// `s` with each single quote written `'\''`, as a quoted path in a concat
/// list needs.
pub open spec fn quote_escaped(s: Seq<char>) -> Seq<char>
    decreases s.len(),
{
    if s.len() == 0 {
        s
    } else {
        quote_escaped(s.drop_last()) + (if s.last() == '\'' {
            seq!['\'', '\\', '\'', '\'']
        } else {
            seq![s.last()]
        })
    }
}

/// The concat list entry of a file.
pub open spec fn concat_entry(p: Seq<char>) -> Seq<char> {
    "file '"@ + quote_escaped(p) + "'\n"@
}

/// The concat list of the files `paths`, one entry per file, in order.
pub open spec fn concat_list_text(paths: Seq<Seq<char>>) -> Seq<char>
    decreases paths.len(),
{
    if paths.len() == 0 {
        Seq::<char>::empty()
    } else {
        concat_list_text(paths.drop_last()) + concat_entry(paths.last())
    }
}

fn push_escaped(r: &mut String, p: &str)
    ensures
        final(r)@ == old(r)@ + quote_escaped(p@),
{
    let v = chars_of(p);
    let mut i: usize = 0;
    while i < v.len()
        invariant
            i <= v@.len(),
            v@ == p@,
            r@ == old(r)@ + quote_escaped(v@.take(i as int)),
        decreases v@.len() - i,
    {
        assert(v@.take(i + 1).drop_last() =~= v@.take(i as int));
        if v[i] == '\'' {
            push_char(r, '\'');
            push_char(r, '\\');
            push_char(r, '\'');
            push_char(r, '\'');
        } else {
            push_char(r, v[i]);
        }
        assert(r@ =~= old(r)@ + quote_escaped(v@.take(i + 1)));
        i = i + 1;
    }
    assert(v@.take(i as int) =~= p@);
}

/// Builds [`concat_list_text`].
pub fn concat_list(paths: &[String]) -> (r: String)
    ensures
        r@ == concat_list_text(views(paths@)),
{
    let mut r = String::new();
    let mut i: usize = 0;
    while i < paths.len()
        invariant
            i <= paths@.len(),
            r@ == concat_list_text(views(paths@.take(i as int))),
        decreases paths@.len() - i,
    {
        assert(views(paths@.take(i + 1)).drop_last() =~= views(paths@.take(i as int)));
        assert(views(paths@.take(i + 1)).last() == paths@[i as int]@);
        append_str(&mut r, "file '");
        push_escaped(&mut r, paths[i].as_str());
        append_str(&mut r, "'\n");
        assert(r@ =~= concat_list_text(views(paths@.take(i + 1))));
        i = i + 1;
    }
    assert(paths@.take(i as int) =~= paths@);
    r
}

fn push_arg(args: &mut Vec<String>, a: &str)
    ensures
        views(final(args)@) == views(old(args)@).push(a@),
{
    let ghost before = args@;
    let s = owned(a);
    args.push(s);
    proof {
        crate::text::lemma_views_push(before, s);
    }
}

/// The arguments of the FFmpeg run that concatenates the files listed in
/// `list_path` into `output`, copying the streams.
pub fn concat_args(list_path: &str, output: &str) -> (r: Vec<String>)
    ensures
        views(r@) == seq!["-y"@, "-f"@, "concat"@, "-safe"@, "0"@, "-i"@, list_path@, "-c"@, "copy"@, output@],
{
    let mut a: Vec<String> = Vec::new();
    push_arg(&mut a, "-y");
    push_arg(&mut a, "-f");
    push_arg(&mut a, "concat");
    push_arg(&mut a, "-safe");
    push_arg(&mut a, "0");
    push_arg(&mut a, "-i");
    push_arg(&mut a, list_path);
    push_arg(&mut a, "-c");
    push_arg(&mut a, "copy");
    push_arg(&mut a, output);
    a
}

/// The arguments of the FFmpeg run that writes `ms` milliseconds of mono
/// silence to `path` as 192 kbit/s MP3.
pub fn silence_args(path: &str, ms: u32) -> (r: Vec<String>)
    ensures
        views(r@) == seq![
            "-y"@,
            "-f"@,
            "lavfi"@,
            "-i"@,
            "anullsrc=r=22050:cl=mono"@,
            "-t"@,
            seconds_fixed3(ms as nat),
            "-c:a"@,
            "libmp3lame"@,
            "-b:a"@,
            "192k"@,
            path@,
        ],
{
    let mut a: Vec<String> = Vec::new();
    push_arg(&mut a, "-y");
    push_arg(&mut a, "-f");
    push_arg(&mut a, "lavfi");
    push_arg(&mut a, "-i");
    push_arg(&mut a, "anullsrc=r=22050:cl=mono");
    push_arg(&mut a, "-t");
    let mut t = String::new();
    push_seconds_fixed3(&mut t, ms as u128);
    assert(t@ =~= seconds_fixed3(ms as nat));
    push_arg(&mut a, t.as_str());
    push_arg(&mut a, "-c:a");
    push_arg(&mut a, "libmp3lame");
    push_arg(&mut a, "-b:a");
    push_arg(&mut a, "192k");
    push_arg(&mut a, path);
    a
}

/// The arguments of the FFmpeg run that re-encodes `input` as 192 kbit/s
/// MP3 into `output`.
pub fn reencode_args(input: &str, output: &str) -> (r: Vec<String>)
    ensures
        views(r@) == seq!["-y"@, "-i"@, input@, "-codec:a"@, "libmp3lame"@, "-b:a"@, "192k"@, output@],
{
    let mut a: Vec<String> = Vec::new();
    push_arg(&mut a, "-y");
    push_arg(&mut a, "-i");
    push_arg(&mut a, input);
    push_arg(&mut a, "-codec:a");
    push_arg(&mut a, "libmp3lame");
    push_arg(&mut a, "-b:a");
    push_arg(&mut a, "192k");
    push_arg(&mut a, output);
    a
}

} // verus!
