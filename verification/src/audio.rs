//! Audio assembly: which lines still lack audio, the FFmpeg arguments that
//! mix the clips of a project (with per-line silences and background
//! music), choosing the FFmpeg binary, the export checks, and decoding of the raw PCM
//! that FFmpeg streams for playback.

use vstd::prelude::*;
use crate::error::AppError;
use crate::fmt::{decimal, push_decimal, push_seconds, seconds_text};
use crate::models::{AudioFragment, ScriptLine};
use crate::synth::has_string;
use crate::text::{append_str, contains_seq, join, join_prefix, lines_of, owned, str_eq, str_lines, views};

verus! {

broadcast use vstd::string::group_string_axioms;

// ---------------------------------------------------------------------------
// Missing audio
// ---------------------------------------------------------------------------

/// The script line ids without an audio fragment, in script order.
pub open spec fn missing_ids(script: Seq<String>, audio: Seq<String>) -> Seq<Seq<char>>
    decreases script.len(),
{
    if script.len() == 0 {
        seq![]
    } else {
        let prev = missing_ids(script.drop_last(), audio);
        if has_string(audio, script.last()@) {
            prev
        } else {
            prev.push(script.last()@)
        }
    }
}

/// The ids of the script lines that have no audio fragment, in script
/// order (duplicates kept).
pub fn detect_missing_audio(script_line_ids: &[String], audio_fragment_line_ids: &[String]) -> (r: Vec<String>)
    ensures
        views(r@) == missing_ids(script_line_ids@, audio_fragment_line_ids@),
{
    let mut r: Vec<String> = Vec::new();
    let mut i: usize = 0;
    while i < script_line_ids.len()
        invariant
            i <= script_line_ids@.len(),
            views(r@) == missing_ids(script_line_ids@.take(i as int), audio_fragment_line_ids@),
        decreases script_line_ids@.len() - i,
    {
        proof {
            assert(script_line_ids@.take(i + 1).drop_last() =~= script_line_ids@.take(i as int));
        }
        let id = &script_line_ids[i];
        let mut found = false;
        let mut j: usize = 0;
        while j < audio_fragment_line_ids.len()
            invariant
                j <= audio_fragment_line_ids@.len(),
                found == exists|k: int| 0 <= k < j && (#[trigger] audio_fragment_line_ids@[k])@ == id@,
            decreases audio_fragment_line_ids@.len() - j,
        {
            if str_eq(audio_fragment_line_ids[j].as_str(), id.as_str()) {
                found = true;
            }
            j = j + 1;
        }
        if !found {
            let ghost before = r@;
            r.push(id.clone());
            proof {
                crate::text::lemma_views_push(before, r@.last());
            }
        }
        i = i + 1;
    }
    assert(script_line_ids@.take(script_line_ids@.len() as int) =~= script_line_ids@);
    r
}

/// Missing audio is exactly the script lines without a fragment: every id
/// reported belongs to the script and has no fragment, and every script id
/// without a fragment is reported, in script order.
pub proof fn law_missing_audio(script: Seq<String>, audio: Seq<String>)
    ensures
        forall|k: int| 0 <= k < missing_ids(script, audio).len() ==> !has_string(audio, #[trigger] missing_ids(script, audio)[k])
            && has_string(script, missing_ids(script, audio)[k]),
        missing_ids(script, audio).len() <= script.len(),
        (forall|j: int| 0 <= j < script.len() ==> has_string(audio, (#[trigger] script[j])@)) ==> missing_ids(script, audio).len() == 0,
        (forall|j: int| 0 <= j < script.len() ==> !has_string(audio, (#[trigger] script[j])@)) ==> missing_ids(script, audio) == views(script),
        forall|j: int| 0 <= j < script.len() && !has_string(audio, (#[trigger] script[j])@)
            ==> missing_ids(script, audio).contains(script[j]@),
    decreases script.len(),
{
    if script.len() > 0 {
        let init = script.drop_last();
        law_missing_audio(init, audio);
        let m = missing_ids(script, audio);
        let p = missing_ids(init, audio);
        assert forall|j: int| 0 <= j < script.len() && !has_string(audio, (#[trigger] script[j])@)
            implies m.contains(script[j]@) by {
            if j < init.len() {
                assert(init[j] == script[j]);
                assert(p.contains(init[j]@));
                let w = choose|w: int| 0 <= w < p.len() && p[w] == init[j]@;
                assert(m[w] == p[w]);
            } else {
                assert(script[j]@ == script.last()@);
                assert(m[m.len() - 1] == script.last()@);
            }
        }
        assert forall|k: int| 0 <= k < m.len() implies !has_string(audio, #[trigger] m[k]) && has_string(script, m[k]) by {
            if k < p.len() {
                assert(m[k] == p[k]);
                let w = choose|w: int| 0 <= w < init.len() && (#[trigger] init[w])@ == p[k];
                assert(script[w] == init[w]);
            } else {
                assert(m[k] == script.last()@);
                assert(script[script.len() - 1]@ == script.last()@);
            }
        }
        if forall|j: int| 0 <= j < script.len() ==> has_string(audio, (#[trigger] script[j])@) {
            assert forall|j: int| 0 <= j < init.len() implies has_string(audio, (#[trigger] init[j])@) by {
                assert(init[j] == script[j]);
            }
            assert(has_string(audio, script[script.len() - 1]@));
        }
        if forall|j: int| 0 <= j < script.len() ==> !has_string(audio, (#[trigger] script[j])@) {
            assert forall|j: int| 0 <= j < init.len() implies !has_string(audio, (#[trigger] init[j])@) by {
                assert(init[j] == script[j]);
            }
            assert(!has_string(audio, script[script.len() - 1]@));
            assert(views(script) =~= views(init).push(script.last()@));
        }
    }
}


// ---------------------------------------------------------------------------
// FFmpeg mixing arguments
// ---------------------------------------------------------------------------

/// The silence after clip `i` (0 past the end of `gaps`).
pub open spec fn gap_at(gaps: Seq<i32>, i: int) -> int {
    if 0 <= i < gaps.len() {
        gaps[i] as int
    } else {
        0
    }
}

/// The filter that makes the silence `gap<i>` of `ms` milliseconds.
pub open spec fn silence_def(i: nat, ms: nat) -> Seq<char> {
    "anullsrc=r=44100:cl=stereo[sil"@ + decimal(i) + "];[sil"@ + decimal(i) + "]atrim=0:"@
        + seconds_text(ms) + "[gap"@ + decimal(i) + "];"@
}

/// The silence filters after the first `k` clips.
pub open spec fn silence_defs(gaps: Seq<i32>, k: nat) -> Seq<char>
    decreases k,
{
    if k == 0 {
        Seq::<char>::empty()
    } else {
        let i = (k - 1) as nat;
        silence_defs(gaps, i) + (if gap_at(gaps, i as int) > 0 {
            silence_def(i, gap_at(gaps, i as int) as nat)
        } else {
            Seq::<char>::empty()
        })
    }
}

/// How many of the first `k` clips are followed by a silence.
pub open spec fn gap_count(gaps: Seq<i32>, k: nat) -> nat
    decreases k,
{
    if k == 0 {
        0
    } else {
        let i = (k - 1) as nat;
        gap_count(gaps, i) + (if gap_at(gaps, i as int) > 0 { 1nat } else { 0nat })
    }
}

/// The label of input `i`'s audio.
pub open spec fn input_label(i: nat) -> Seq<char> {
    "["@ + decimal(i) + ":a]"@
}

/// The labels of the first `k` of `n` clips, each followed by its silence
/// when it has one and is not the last clip.
pub open spec fn interleaved(gaps: Seq<i32>, n: nat, k: nat) -> Seq<char>
    decreases k,
{
    if k == 0 {
        Seq::<char>::empty()
    } else {
        let i = (k - 1) as nat;
        interleaved(gaps, n, i) + input_label(i) + (if i + 1 < n && gap_at(gaps, i as int) > 0 {
            "[gap"@ + decimal(i) + "]"@
        } else {
            Seq::<char>::empty()
        })
    }
}

/// The labels of the first `k` clips.
pub open spec fn input_labels(k: nat) -> Seq<char>
    decreases k,
{
    if k == 0 {
        Seq::<char>::empty()
    } else {
        input_labels((k - 1) as nat) + input_label((k - 1) as nat)
    }
}

/// Some clip but the last of `n` is followed by a silence.
pub open spec fn has_gap(gaps: Seq<i32>, n: nat) -> bool {
    n > 1 && gaps.len() > 0 && exists|i: int| 0 <= i < n - 1 && i < gaps.len() && gaps[i] > 0
}

/// The filter that joins `n` clips into `[voice]`: silences made and placed
/// between clips when there are any, else the clips concatenated (or copied
/// when there is one).
pub open spec fn voice_filter(gaps: Seq<i32>, n: nat) -> Seq<char> {
    if has_gap(gaps, n) {
        silence_defs(gaps, (n - 1) as nat) + interleaved(gaps, n, n) + "concat=n="@ + decimal(
            n + gap_count(gaps, (n - 1) as nat),
        ) + ":v=0:a=1[voice]"@
    } else {
        input_labels(n) + (if n > 1 {
            "concat=n="@ + decimal(n) + ":v=0:a=1[voice]"@
        } else {
            "acopy[voice]"@
        })
    }
}

/// The whole filter graph: [`voice_filter`], then, with background music
/// (input `n`), the music at `volume` mixed under the voice into `[out]`.
pub open spec fn mix_filter(gaps: Seq<i32>, n: nat, bgm: bool, volume: Seq<char>) -> Seq<char> {
    voice_filter(gaps, n) + (if bgm {
        ";["@ + decimal(n) + ":a]volume="@ + volume
            + "[bgm];[voice][bgm]amix=inputs=2:duration=first:dropout_transition=2[out]"@
    } else {
        Seq::<char>::empty()
    })
}

/// `-i <path>` for each path.
pub open spec fn input_args(paths: Seq<Seq<char>>) -> Seq<Seq<char>>
    decreases paths.len(),
{
    if paths.len() == 0 {
        seq![]
    } else {
        input_args(paths.drop_last()) + seq!["-i"@, paths.last()]
    }
}

/// The arguments of the FFmpeg run that mixes `paths` (in order) into `out`:
/// overwrite, the clips and the music as inputs, then either a plain stream
/// copy (one clip, no music, no silence after it) or [`mix_filter`] mapped
/// to `[out]` (with music) or `[voice]`.
pub open spec fn ffmpeg_args(paths: Seq<Seq<char>>, bgm: Option<Seq<char>>, volume: Seq<char>, gaps: Seq<i32>, out: Seq<char>) -> Seq<Seq<char>> {
    let head = seq!["-y"@] + input_args(paths) + (match bgm {
        Some(b) => seq!["-i"@, b],
        None => seq![],
    });
    let n = paths.len();
    if n == 1 && bgm is None && (gaps.len() == 0 || gaps[0] == 0) {
        head + seq!["-c"@, "copy"@, out]
    } else {
        head + seq![
            "-filter_complex"@,
            mix_filter(gaps, n, bgm is Some, volume),
            "-map"@,
            if bgm is Some { "[out]"@ } else { "[voice]"@ },
            out,
        ]
    }
}

fn push_arg(args: &mut Vec<String>, a: &str)
    ensures
        views(final(args)@) == views(old(args)@).push(a@),
{
    let ghost before = args@;
    let s = owned(a);
    args.push(s);
    proof {
        crate::text::lemma_views_push(before, s);
    }
}

fn push_silence_def(f: &mut String, i: usize, ms: i32)
    requires
        ms > 0,
    ensures
        final(f)@ == old(f)@ + silence_def(i as nat, ms as nat),
{
    append_str(f, "anullsrc=r=44100:cl=stereo[sil");
    push_decimal(f, i as u128);
    append_str(f, "];[sil");
    push_decimal(f, i as u128);
    append_str(f, "]atrim=0:");
    push_seconds(f, ms as u128);
    append_str(f, "[gap");
    push_decimal(f, i as u128);
    append_str(f, "];");
    proof {
        assert(final(f)@ =~= old(f)@ + silence_def(i as nat, ms as nat));
    }
}

fn gap_of(gaps: &[i32], i: usize) -> (g: i32)
    ensures
        g == gap_at(gaps@, i as int),
{
    if i < gaps.len() {
        gaps[i]
    } else {
        0
    }
}

/// The `[voice]` filter for `n` clips; see [`voice_filter`].
fn build_voice_filter(gaps: &[i32], n: usize) -> (f: String)
    ensures
        f@ == voice_filter(gaps@, n as nat),
{
    let mut any_gap = false;
    if n > 1 && gaps.len() > 0 {
        let mut i: usize = 0;
        while i < n - 1 && i < gaps.len()
            invariant
                n > 1,
                i <= n - 1,
                any_gap == exists|j: int| 0 <= j < i && j < gaps@.len() && gaps@[j] > 0,
            decreases n - 1 - i,
        {
            if gaps[i] > 0 {
                any_gap = true;
            }
            i = i + 1;
        }
    }
    let mut f = String::new();
    if any_gap {
        let mut count: usize = 0;
        let mut i: usize = 0;
        while i < n - 1
            invariant
                n > 1,
                i <= n - 1,
                count == gap_count(gaps@, i as nat),
                count <= i,
                f@ == silence_defs(gaps@, i as nat),
            decreases n - 1 - i,
        {
            let g = gap_of(gaps, i);
            if g > 0 {
                push_silence_def(&mut f, i, g);
                count = count + 1;
            } else {
                assert(f@ =~= f@ + Seq::<char>::empty());
            }
            i = i + 1;
        }
        let ghost defs = f@;
        let mut k: usize = 0;
        while k < n
            invariant
                n > 1,
                k <= n,
                f@ == defs + interleaved(gaps@, n as nat, k as nat),
            decreases n - k,
        {
            let ghost before = f@;
            append_str(&mut f, "[");
            push_decimal(&mut f, k as u128);
            append_str(&mut f, ":a]");
            let g = gap_of(gaps, k);
            if k + 1 < n && g > 0 {
                append_str(&mut f, "[gap");
                push_decimal(&mut f, k as u128);
                append_str(&mut f, "]");
            }
            proof {
                let tail = if k + 1 < n && g > 0 {
                    "[gap"@ + decimal(k as nat) + "]"@
                } else {
                    Seq::<char>::empty()
                };
                assert(f@ =~= before + input_label(k as nat) + tail);
            }
            k = k + 1;
        }
        append_str(&mut f, "concat=n=");
        push_decimal(&mut f, n as u128 + count as u128);
        append_str(&mut f, ":v=0:a=1[voice]");
        proof {
            assert(f@ =~= silence_defs(gaps@, (n - 1) as nat) + interleaved(gaps@, n as nat, n as nat)
                + "concat=n="@ + decimal(n as nat + gap_count(gaps@, (n - 1) as nat))
                + ":v=0:a=1[voice]"@);
        }
    } else {
        let mut k: usize = 0;
        while k < n
            invariant
                k <= n,
                f@ == input_labels(k as nat),
            decreases n - k,
        {
            let ghost before = f@;
            append_str(&mut f, "[");
            push_decimal(&mut f, k as u128);
            append_str(&mut f, ":a]");
            assert(f@ =~= before + input_label(k as nat));
            k = k + 1;
        }
        if n > 1 {
            append_str(&mut f, "concat=n=");
            push_decimal(&mut f, n as u128);
            append_str(&mut f, ":v=0:a=1[voice]");
        } else {
            append_str(&mut f, "acopy[voice]");
        }
    }
    f
}

/// Builds the FFmpeg arguments that mix the clips `audio_paths` (in order,
/// with `gaps_ms[i]` milliseconds of silence after clip `i` but the last)
/// into `output_path`, with the background music `bgm_path` at the volume
/// written `bgm_volume` when one is given; see [`ffmpeg_args`].
pub fn build_ffmpeg_args(
    audio_paths: &[String],
    bgm_path: Option<&str>,
    bgm_volume: &str,
    gaps_ms: &[i32],
    output_path: &str,
) -> (r: Vec<String>)
    ensures
        views(r@) == ffmpeg_args(
            views(audio_paths@),
            match bgm_path {
                Some(b) => Some(b@),
                None => None,
            },
            bgm_volume@,
            gaps_ms@,
            output_path@,
        ),
{
    let n = audio_paths.len();
    let mut args: Vec<String> = Vec::new();
    push_arg(&mut args, "-y");
    let mut i: usize = 0;
    while i < n
        invariant
            n == audio_paths@.len(),
            i <= n,
            views(args@) == seq!["-y"@] + input_args(views(audio_paths@.take(i as int))),
        decreases n - i,
    {
        proof {
            assert(views(audio_paths@.take(i + 1)).drop_last() =~= views(audio_paths@.take(i as int)));
            assert(views(audio_paths@.take(i + 1)).last() == audio_paths@[i as int]@);
        }
        push_arg(&mut args, "-i");
        push_arg(&mut args, audio_paths[i].as_str());
        i = i + 1;
    }
    assert(audio_paths@.take(n as int) =~= audio_paths@);
    match bgm_path {
        Some(b) => {
            push_arg(&mut args, "-i");
            push_arg(&mut args, b);
        },
        None => {},
    }
    let ghost head = views(args@);
    if n == 1 && bgm_path.is_none() && (gaps_ms.len() == 0 || gaps_ms[0] == 0) {
        push_arg(&mut args, "-c");
        push_arg(&mut args, "copy");
        push_arg(&mut args, output_path);
        assert(views(args@) =~= head + seq!["-c"@, "copy"@, output_path@]);
        return args;
    }
    let mut filter = build_voice_filter(gaps_ms, n);
    match bgm_path {
        Some(_) => {
            append_str(&mut filter, ";[");
            push_decimal(&mut filter, n as u128);
            append_str(&mut filter, ":a]volume=");
            append_str(&mut filter, bgm_volume);
            append_str(
                &mut filter,
                "[bgm];[voice][bgm]amix=inputs=2:duration=first:dropout_transition=2[out]",
            );
        },
        None => {},
    }
    let ghost fv = filter@;
    push_arg(&mut args, "-filter_complex");
    let ghost before = args@;
    args.push(filter);
    proof {
        crate::text::lemma_views_push(before, args@.last());
    }
    push_arg(&mut args, "-map");
    if bgm_path.is_some() {
        push_arg(&mut args, "[out]");
    } else {
        push_arg(&mut args, "[voice]");
    }
    push_arg(&mut args, output_path);
    proof {
        let bgm_v = match bgm_path {
            Some(b) => Some(b@),
            None => None,
        };
        assert(fv =~= mix_filter(gaps_ms@, n as nat, bgm_v is Some, bgm_volume@));
        assert(views(args@) =~= head + seq![
            "-filter_complex"@,
            fv,
            "-map"@,
            if bgm_v is Some { "[out]"@ } else { "[voice]"@ },
            output_path@,
        ]);
    }
    args
}


proof fn lemma_input_args_len(paths: Seq<Seq<char>>)
    ensures
        input_args(paths).len() == 2 * paths.len(),
    decreases paths.len(),
{
    if paths.len() > 0 {
        lemma_input_args_len(paths.drop_last());
    }
}

/// The shape of every mixing command: it starts with the overwrite flag,
/// then takes every clip, in order, as an input (`-i <path>`), and it ends
/// with the output path.
pub proof fn law_ffmpeg_args_shape(
    paths: Seq<Seq<char>>,
    bgm: Option<Seq<char>>,
    volume: Seq<char>,
    gaps: Seq<i32>,
    out: Seq<char>,
)
    ensures
        ffmpeg_args(paths, bgm, volume, gaps, out)[0] == "-y"@,
        ffmpeg_args(paths, bgm, volume, gaps, out).subrange(1, 1 + 2 * paths.len() as int) == input_args(
            paths,
        ),
        ffmpeg_args(paths, bgm, volume, gaps, out).last() == out,
{
    lemma_input_args_len(paths);
    let ia = input_args(paths);
    let args = ffmpeg_args(paths, bgm, volume, gaps, out);
    assert(args.subrange(1, 1 + 2 * paths.len() as int) =~= ia);
}


proof fn lemma_contains_in_left(a: Seq<char>, b: Seq<char>, t: Seq<char>)
    requires
        contains_seq(a, t),
    ensures
        contains_seq(a + b, t),
{
    let i = choose|i: int| 0 <= i && i + t.len() <= a.len() && #[trigger] a.subrange(i, i + t.len()) == t;
    assert((a + b).subrange(i, i + t.len()) =~= a.subrange(i, i + t.len()));
}

proof fn lemma_contains_in_right(a: Seq<char>, b: Seq<char>, t: Seq<char>)
    requires
        contains_seq(b, t),
    ensures
        contains_seq(a + b, t),
{
    let i = choose|i: int| 0 <= i && i + t.len() <= b.len() && #[trigger] b.subrange(i, i + t.len()) == t;
    assert((a + b).subrange(a.len() + i, a.len() + i + t.len()) =~= b.subrange(i, i + t.len()));
}

proof fn lemma_contains_suffix(a: Seq<char>, t: Seq<char>)
    ensures
        contains_seq(a + t, t),
{
    assert((a + t).subrange(a.len() as int, a.len() as int + t.len()) =~= t);
}

/// The label of clip `i` followed by the label of its silence.
pub open spec fn clip_then_gap(i: nat) -> Seq<char> {
    "["@ + decimal(i) + ":a][gap"@ + decimal(i) + "]"@
}

/// The end of the definition of the silence `gap<i>` of `ms` milliseconds:
/// its length in seconds and its label.
pub open spec fn gap_length_def(i: nat, ms: nat) -> Seq<char> {
    seconds_text(ms) + "[gap"@ + decimal(i) + "];"@
}

proof fn lemma_interleaved_holds(gaps: Seq<i32>, n: nat, i: nat, m: nat)
    requires
        i < n - 1,
        i < m <= n,
        gap_at(gaps, i as int) > 0,
    ensures
        contains_seq(interleaved(gaps, n, m), clip_then_gap(i)),
    decreases m,
{
    if m == i + 1 {
        let pre = interleaved(gaps, n, i);
        reveal_strlit(":a][gap");
        reveal_strlit(":a]");
        reveal_strlit("[gap");
        assert(":a][gap"@ =~= ":a]"@ + "[gap"@);
        assert(interleaved(gaps, n, m) =~= pre + clip_then_gap(i));
        lemma_contains_suffix(pre, clip_then_gap(i));
    } else {
        lemma_interleaved_holds(gaps, n, i, (m - 1) as nat);
        let k = (m - 1) as nat;
        let tail = input_label(k) + (if k + 1 < n && gap_at(gaps, k as int) > 0 {
            "[gap"@ + decimal(k) + "]"@
        } else {
            Seq::<char>::empty()
        });
        assert(interleaved(gaps, n, m) =~= interleaved(gaps, n, k) + tail);
        lemma_contains_in_left(interleaved(gaps, n, k), tail, clip_then_gap(i));
    }
}

proof fn lemma_silence_defs_hold(gaps: Seq<i32>, i: nat, m: nat)
    requires
        i < m,
        gap_at(gaps, i as int) > 0,
    ensures
        contains_seq(silence_defs(gaps, m), gap_length_def(i, gap_at(gaps, i as int) as nat)),
    decreases m,
{
    let t = gap_length_def(i, gap_at(gaps, i as int) as nat);
    if m == i + 1 {
        let ms = gap_at(gaps, i as int) as nat;
        let a = "anullsrc=r=44100:cl=stereo[sil"@ + decimal(i) + "];[sil"@ + decimal(i) + "]atrim=0:"@;
        assert(silence_def(i, ms) =~= a + t);
        assert(silence_defs(gaps, m) =~= (silence_defs(gaps, i) + a) + t);
        lemma_contains_suffix(silence_defs(gaps, i) + a, t);
    } else {
        let k = (m - 1) as nat;
        lemma_silence_defs_hold(gaps, i, k);
        let tail = if gap_at(gaps, k as int) > 0 {
            silence_def(k, gap_at(gaps, k as int) as nat)
        } else {
            Seq::<char>::empty()
        };
        assert(silence_defs(gaps, m) == silence_defs(gaps, k) + tail);
        lemma_contains_in_left(silence_defs(gaps, k), tail, t);
    }
}

/// Every silence between clips is heard, not only a first one: when two or
/// more clips are mixed and clip `i` (not the last) has a positive gap, the
/// filter argument of the mix defines a silence of that length labelled
/// `gap<i>` and places it right after clip `i`.
pub proof fn law_every_gap_inserted(
    paths: Seq<Seq<char>>,
    bgm: Option<Seq<char>>,
    volume: Seq<char>,
    gaps: Seq<i32>,
    out: Seq<char>,
    i: nat,
)
    requires
        paths.len() >= 2,
        i < paths.len() - 1,
        i < gaps.len(),
        gaps[i as int] > 0,
    ensures
        ffmpeg_args(paths, bgm, volume, gaps, out)[2 * paths.len() + (if bgm is Some { 2int } else { 0int }) + 2]
            == mix_filter(gaps, paths.len(), bgm is Some, volume),
        contains_seq(mix_filter(gaps, paths.len(), bgm is Some, volume), clip_then_gap(i)),
        contains_seq(mix_filter(gaps, paths.len(), bgm is Some, volume), gap_length_def(i, gaps[i as int] as nat)),
{
    let n = paths.len();
    lemma_input_args_len(paths);
    assert(has_gap(gaps, n)) by {
        assert(0 <= i < n - 1 && i < gaps.len() && gaps[i as int] > 0);
    }
    let tail = "concat=n="@ + decimal(n + gap_count(gaps, (n - 1) as nat)) + ":v=0:a=1[voice]"@;
    let sd = silence_defs(gaps, (n - 1) as nat);
    let il = interleaved(gaps, n, n);
    assert(voice_filter(gaps, n) =~= sd + (il + tail));
    lemma_interleaved_holds(gaps, n, i, n);
    lemma_contains_in_left(il, tail, clip_then_gap(i));
    lemma_contains_in_right(sd, il + tail, clip_then_gap(i));
    lemma_silence_defs_hold(gaps, i, (n - 1) as nat);
    lemma_contains_in_left(sd, il + tail, gap_length_def(i, gaps[i as int] as nat));
    let extra = if bgm is Some {
        ";["@ + decimal(n) + ":a]volume="@ + volume
            + "[bgm];[voice][bgm]amix=inputs=2:duration=first:dropout_transition=2[out]"@
    } else {
        Seq::<char>::empty()
    };
    assert(mix_filter(gaps, n, bgm is Some, volume) == voice_filter(gaps, n) + extra);
    lemma_contains_in_left(voice_filter(gaps, n), extra, clip_then_gap(i));
    lemma_contains_in_left(voice_filter(gaps, n), extra, gap_length_def(i, gaps[i as int] as nat));
}


proof fn lemma_gaps_before(gaps: Seq<i32>, n: nat, x: i32, k: nat)
    requires
        1 <= n <= gaps.len(),
        k <= n,
    ensures
        k < n ==> silence_defs(gaps, k) == silence_defs(gaps.update(n - 1, x), k),
        k < n ==> gap_count(gaps, k) == gap_count(gaps.update(n - 1, x), k),
        interleaved(gaps, n, k) == interleaved(gaps.update(n - 1, x), n, k),
    decreases k,
{
    let g2 = gaps.update(n - 1, x);
    if k > 0 {
        lemma_gaps_before(gaps, n, x, (k - 1) as nat);
        let i = k - 1;
        if i < n - 1 {
            assert(gap_at(gaps, i as int) == gap_at(g2, i as int));
        }
    }
}

/// The gap after the last clip is never heard: with two or more clips, the
/// mix arguments do not depend on it.
pub proof fn law_last_gap_ignored(
    paths: Seq<Seq<char>>,
    bgm: Option<Seq<char>>,
    volume: Seq<char>,
    gaps: Seq<i32>,
    out: Seq<char>,
    x: i32,
)
    requires
        paths.len() >= 2,
        paths.len() <= gaps.len(),
    ensures
        ffmpeg_args(paths, bgm, volume, gaps, out) == ffmpeg_args(
            paths,
            bgm,
            volume,
            gaps.update(paths.len() - 1, x),
            out,
        ),
{
    let n = paths.len();
    let g2 = gaps.update(n - 1, x);
    lemma_gaps_before(gaps, n, x, (n - 1) as nat);
    lemma_gaps_before(gaps, n, x, n);
    assert(has_gap(gaps, n) == has_gap(g2, n)) by {
        if has_gap(gaps, n) {
            let i = choose|i: int| 0 <= i < n - 1 && i < gaps.len() && gaps[i] > 0;
            assert(g2[i] == gaps[i]);
        }
        if has_gap(g2, n) {
            let i = choose|i: int| 0 <= i < n - 1 && i < g2.len() && g2[i] > 0;
            assert(g2[i] == gaps[i]);
        }
    }
    assert(voice_filter(gaps, n) == voice_filter(g2, n));
}

/// Without gaps no silence is made: the `n` clips are concatenated directly
/// (or copied when there is one).
pub proof fn law_no_gaps_no_silence(n: nat)
    requires
        n >= 1,
    ensures
        voice_filter(Seq::<i32>::empty(), n) == input_labels(n) + (if n > 1 {
            "concat=n="@ + decimal(n) + ":v=0:a=1[voice]"@
        } else {
            "acopy[voice]"@
        }),
{
}

/// Gaps that are zero or negative make no silence: when no clip but the
/// last has a positive gap, the voice filter is the one for no gaps at all.
pub proof fn law_nonpositive_gaps_make_no_silence(gaps: Seq<i32>, n: nat)
    requires
        forall|i: int| 0 <= i < n - 1 && i < gaps.len() ==> gaps[i] <= 0,
    ensures
        voice_filter(gaps, n) == voice_filter(Seq::<i32>::empty(), n),
{
}

// ---------------------------------------------------------------------------
// Locating FFmpeg
// ---------------------------------------------------------------------------

/// The FFmpeg binary to run, given whether the Homebrew and `/usr/local`
/// installs exist: the first that exists, else `ffmpeg` from the `PATH`.
pub open spec fn ffmpeg_choice(homebrew: bool, local: bool) -> Seq<char> {
    if homebrew {
        "/opt/homebrew/bin/ffmpeg"@
    } else if local {
        "/usr/local/bin/ffmpeg"@
    } else {
        "ffmpeg"@
    }
}

/// Picks the FFmpeg binary; see [`ffmpeg_choice`].
pub fn select_ffmpeg(homebrew_exists: bool, local_exists: bool) -> (r: String)
    ensures
        r@ == ffmpeg_choice(homebrew_exists, local_exists),
{
    if homebrew_exists {
        owned("/opt/homebrew/bin/ffmpeg")
    } else if local_exists {
        owned("/usr/local/bin/ffmpeg")
    } else {
        owned("ffmpeg")
    }
}

// ---------------------------------------------------------------------------
// Imported background music
// ---------------------------------------------------------------------------

/// The extension `std::path::Path::extension` finds in the path `p`, as
/// text.
pub uninterp spec fn path_extension_of(p: Seq<char>) -> Option<Seq<char>>;

/// `std::path::Path::extension` of `p`: the part of its file name after the
/// last dot, if any (a function of the path text alone; the rules for
/// leading dots and missing file names are std's and are named here).
#[verifier::external_body]
fn path_extension(p: &str) -> (r: Option<String>)
    ensures
        crate::dashscope::opt_view(r) == path_extension_of(p@),
{
    match std::path::Path::new(p).extension() {
        Some(e) => match e.to_str() {
            Some(t) => Some(t.to_string()),
            None => None,
        },
        None => None,
    }
}

/// The file name a music track called `name` is stored under, given its
/// source file's extension: that extension, or `mp3` when it has none.
pub fn bgm_name_with(name: &str, extension: Option<&str>) -> (r: String)
    ensures
        r@ == name@ + "."@ + (match extension {
            Some(e) => e@,
            None => "mp3"@,
        }),
{
    let mut r = owned(name);
    append_str(&mut r, ".");
    match extension {
        Some(e) => append_str(&mut r, e),
        None => append_str(&mut r, "mp3"),
    }
    r
}

/// The file name an imported music track is stored under: its name and the
/// source file's extension (`mp3` when it has none).
pub fn bgm_file_name(name: &str, source_path: &str) -> (r: String)
    ensures
        r@ == name@ + "."@ + (match path_extension_of(source_path@) {
            Some(e) => e,
            None => "mp3"@,
        }),
{
    match path_extension(source_path) {
        Some(e) => bgm_name_with(name, Some(e.as_str())),
        None => bgm_name_with(name, None),
    }
}

// ---------------------------------------------------------------------------
// Export plan
// ---------------------------------------------------------------------------

/// Index of the fragment recorded for `line_id` (the last one listed, if
/// several), or -1.
pub open spec fn fragment_for(frags: Seq<AudioFragment>, line_id: Seq<char>) -> int
    decreases frags.len(),
{
    if frags.len() == 0 {
        -1
    } else if frags.last().line_id@ == line_id {
        frags.len() - 1
    } else {
        fragment_for(frags.drop_last(), line_id)
    }
}

/// The clips of an export in script order: for each line with a fragment,
/// the fragment's file and the line's silence after it.
pub open spec fn export_clips(lines: Seq<ScriptLine>, frags: Seq<AudioFragment>) -> Seq<(Seq<char>, i32)>
    decreases lines.len(),
{
    if lines.len() == 0 {
        seq![]
    } else {
        let prev = export_clips(lines.drop_last(), frags);
        let k = fragment_for(frags, lines.last().id@);
        if k >= 0 {
            prev.push((frags[k].file_path@, lines.last().gap_after_ms))
        } else {
            prev
        }
    }
}

/// The files of a list of clips.
pub open spec fn clip_paths(c: Seq<(Seq<char>, i32)>) -> Seq<Seq<char>> {
    c.map_values(|x: (Seq<char>, i32)| x.0)
}

/// The silences of a list of clips.
pub open spec fn clip_gaps(c: Seq<(Seq<char>, i32)>) -> Seq<i32> {
    c.map_values(|x: (Seq<char>, i32)| x.1)
}

fn find_fragment(frags: &[AudioFragment], line_id: &str) -> (r: Option<usize>)
    ensures
        match r {
            Some(k) => k == fragment_for(frags@, line_id@) && k < frags@.len(),
            None => fragment_for(frags@, line_id@) < 0,
        },
{
    let mut k = frags.len();
    assert(frags@.take(k as int) =~= frags@);
    while k > 0 && !str_eq(frags[k - 1].line_id.as_str(), line_id)
        invariant
            k <= frags@.len(),
            fragment_for(frags@, line_id@) == fragment_for(frags@.take(k as int), line_id@),
        decreases k,
    {
        assert(frags@.take(k as int).drop_last() =~= frags@.take(k - 1));
        k = k - 1;
    }
    if k == 0 {
        None
    } else {
        assert(frags@.take(k as int).last() == frags@[k - 1]);
        Some(k - 1)
    }
}

/// The clips to export, in script order; see [`export_clips`].
pub fn export_candidates(lines: &[ScriptLine], frags: &[AudioFragment]) -> (r: (Vec<String>, Vec<i32>))
    ensures
        views(r.0@) == clip_paths(export_clips(lines@, frags@)),
        r.1@ == clip_gaps(export_clips(lines@, frags@)),
{
    let mut paths: Vec<String> = Vec::new();
    let mut gaps: Vec<i32> = Vec::new();
    let mut i: usize = 0;
    while i < lines.len()
        invariant
            i <= lines@.len(),
            paths@.len() == gaps@.len(),
            paths@.len() == export_clips(lines@.take(i as int), frags@).len(),
            forall|j: int| 0 <= j < paths@.len() ==> (#[trigger] paths@[j])@ == export_clips(
                lines@.take(i as int),
                frags@,
            )[j].0 && gaps@[j] == export_clips(lines@.take(i as int), frags@)[j].1,
        decreases lines@.len() - i,
    {
        proof {
            assert(lines@.take(i + 1).drop_last() =~= lines@.take(i as int));
            assert(lines@.take(i + 1).last() == lines@[i as int]);
        }
        let ghost prev = export_clips(lines@.take(i as int), frags@);
        let ghost next = export_clips(lines@.take(i + 1), frags@);
        match find_fragment(frags, lines[i].id.as_str()) {
            Some(k) => {
                paths.push(frags[k].file_path.clone());
                gaps.push(lines[i].gap_after_ms);
                proof {
                    assert(next == prev.push((frags@[k as int].file_path@, lines@[i as int].gap_after_ms)));
                    assert forall|j: int| 0 <= j < paths@.len() implies (#[trigger] paths@[j])@
                        == next[j].0 && gaps@[j] == next[j].1 by {
                        if j < prev.len() {
                            assert(next[j] == prev[j]);
                        }
                    }
                }
            },
            None => {
                assert(next == prev);
            },
        }
        i = i + 1;
    }
    assert(lines@.take(i as int) =~= lines@);
    let ghost all = export_clips(lines@, frags@);
    assert(export_clips(lines@.take(i as int), frags@) == all);
    assert(views(paths@) =~= clip_paths(all));
    assert forall|j: int| 0 <= j < gaps@.len() implies gaps@[j] == clip_gaps(all)[j] by {
        assert((#[trigger] paths@[j])@ == all[j].0);
    }
    assert(gaps@ =~= clip_gaps(all));
    (paths, gaps)
}

/// The message of an export with nothing to mix.
pub open spec fn no_fragments_text() -> Seq<char> {
    "No audio fragments found for this project"@
}

/// The export plan of a project: the clips of [`export_candidates`], or an
/// FFmpeg error when the project has no fragment or none belongs to a line
/// of the script.
pub fn plan_export(lines: &[ScriptLine], frags: &[AudioFragment]) -> (r: Result<(Vec<String>, Vec<i32>), AppError>)
    ensures
        frags@.len() == 0 || export_clips(lines@, frags@).len() == 0 ==> (r matches Err(AppError::FFmpeg(m)) && m@ == no_fragments_text()),
        frags@.len() > 0 && export_clips(lines@, frags@).len() > 0 ==> (r matches Ok((p, g))
            && views(p@) == clip_paths(export_clips(lines@, frags@))
            && g@ == clip_gaps(export_clips(lines@, frags@))),
{
    if frags.len() == 0 {
        return Err(AppError::FFmpeg(owned("No audio fragments found for this project")));
    }
    let (paths, gaps) = export_candidates(lines, frags);
    assert(views(paths@).len() == paths@.len());
    assert(clip_paths(export_clips(lines@, frags@)).len() == export_clips(lines@, frags@).len());
    if paths.len() == 0 {
        return Err(AppError::FFmpeg(owned("No audio fragments found for this project")));
    }
    Ok((paths, gaps))
}

/// Whether the export reports its checking progress after clip number
/// `processed` of `total`: every fifth clip and the last.
pub fn mix_progress_due(processed: usize, total: usize) -> (b: bool)
    ensures
        b == (processed % 5 == 0 || processed == total),
{
    processed % 5 == 0 || processed == total
}

/// The stage text while clip `processed` of `total` is checked.
pub fn verify_stage_text(processed: usize, total: usize) -> (r: String)
    ensures
        r@ == "正在校验音频 "@ + decimal(processed as nat) + "/"@ + decimal(total as nat),
{
    let mut r = owned("正在校验音频 ");
    push_decimal(&mut r, processed as u128);
    append_str(&mut r, "/");
    push_decimal(&mut r, total as u128);
    r
}


/// The index of the first `false` in `exists`, or -1 when all are true.
pub open spec fn first_missing(exists: Seq<bool>) -> int
    decreases exists.len(),
{
    if exists.len() == 0 {
        -1
    } else if first_missing(exists.drop_last()) >= 0 {
        first_missing(exists.drop_last())
    } else if !exists.last() {
        exists.len() - 1
    } else {
        -1
    }
}

/// The files an export needs, checked before FFmpeg runs. `exists[i]` tells
/// whether clip `paths[i]` is on disk and `bgm_exists` whether the music is.
/// The first missing clip is a file-system error naming it; else missing
/// music is a file-system error naming it; else the export may go on.
pub fn check_export_files(paths: &[String], exists: &[bool], bgm_path: Option<&str>, bgm_exists: bool) -> (r: Result<(), AppError>)
    requires
        paths@.len() == exists@.len(),
    ensures
        first_missing(exists@) >= 0 ==> (r matches Err(AppError::FileSystem(m))
            && m@ == "Audio fragment file not found: "@ + paths@[first_missing(exists@)]@),
        first_missing(exists@) < 0 && bgm_path is Some && !bgm_exists ==> (r matches Err(
            AppError::FileSystem(m),
        ) && m@ == "BGM file not found: "@ + bgm_path->0@),
        first_missing(exists@) < 0 && (bgm_path is None || bgm_exists) ==> r is Ok,
{
    let mut i: usize = 0;
    while i < exists.len()
        invariant
            paths@.len() == exists@.len(),
            i <= exists@.len(),
            first_missing(exists@.take(i as int)) < 0,
        decreases exists@.len() - i,
    {
        proof {
            assert(exists@.take(i + 1).drop_last() =~= exists@.take(i as int));
            assert(exists@.take(i + 1).last() == exists@[i as int]);
        }
        if !exists[i] {
            proof {
                lemma_first_missing_prefix(exists@, i + 1);
            }
            let mut m = owned("Audio fragment file not found: ");
            append_str(&mut m, paths[i].as_str());
            return Err(AppError::FileSystem(m));
        }
        i = i + 1;
    }
    assert(exists@.take(i as int) =~= exists@);
    match bgm_path {
        Some(b) => {
            if !bgm_exists {
                let mut m = owned("BGM file not found: ");
                append_str(&mut m, b);
                return Err(AppError::FileSystem(m));
            }
        },
        None => {},
    }
    Ok(())
}

/// The first missing entry of a prefix that has one is the first of the whole.
proof fn lemma_first_missing_prefix(e: Seq<bool>, k: int)
    requires
        0 <= k <= e.len(),
        first_missing(e.take(k)) >= 0,
    ensures
        first_missing(e) == first_missing(e.take(k)),
    decreases e.len() - k,
{
    if k < e.len() {
        assert(e.take(k + 1).drop_last() =~= e.take(k));
        lemma_first_missing_prefix(e, k + 1);
    } else {
        assert(e.take(k) =~= e);
    }
}


// ---------------------------------------------------------------------------
// Command-line mixing
// ---------------------------------------------------------------------------

/// The clips of a command-line mix: of the export candidates, those whose
/// file exists (`exists[i]` for candidate `i`).
pub open spec fn existing_clips(paths: Seq<Seq<char>>, gaps: Seq<i32>, exists: Seq<bool>) -> Seq<(Seq<char>, i32)>
    decreases paths.len(),
{
    if paths.len() == 0 {
        seq![]
    } else {
        let n = (paths.len() - 1) as int;
        let prev = existing_clips(paths.drop_last(), gaps.take(n), exists.take(n));
        if exists[n] {
            prev.push((paths[n], gaps[n]))
        } else {
            prev
        }
    }
}

/// Keeps the candidates whose file exists; an error when none does.
pub fn keep_existing(paths: &[String], gaps: &[i32], exists: &[bool]) -> (r: Result<(Vec<String>, Vec<i32>), String>)
    requires
        paths@.len() == gaps@.len(),
        paths@.len() == exists@.len(),
    ensures
        existing_clips(views(paths@), gaps@, exists@).len() == 0 ==> (r matches Err(m) && m@ == "No valid audio fragment files found"@),
        existing_clips(views(paths@), gaps@, exists@).len() > 0 ==> (r matches Ok((p, g))
            && views(p@) == clip_paths(existing_clips(views(paths@), gaps@, exists@))
            && g@ == clip_gaps(existing_clips(views(paths@), gaps@, exists@))),
{
    let mut p: Vec<String> = Vec::new();
    let mut g: Vec<i32> = Vec::new();
    let mut i: usize = 0;
    while i < paths.len()
        invariant
            paths@.len() == gaps@.len(),
            paths@.len() == exists@.len(),
            i <= paths@.len(),
            views(p@) == clip_paths(existing_clips(views(paths@.take(i as int)), gaps@.take(i as int), exists@.take(i as int))),
            g@ == clip_gaps(existing_clips(views(paths@.take(i as int)), gaps@.take(i as int), exists@.take(i as int))),
        decreases paths@.len() - i,
    {
        let ghost prev = existing_clips(views(paths@.take(i as int)), gaps@.take(i as int), exists@.take(i as int));
        proof {
            let vp = views(paths@.take(i + 1));
            assert(vp.drop_last() =~= views(paths@.take(i as int)));
            assert(gaps@.take(i + 1).take(i as int) =~= gaps@.take(i as int));
            assert(exists@.take(i + 1).take(i as int) =~= exists@.take(i as int));
            assert(vp[i as int] == paths@[i as int]@);
        }
        if exists[i] {
            let ghost bp = p@;
            p.push(paths[i].clone());
            g.push(gaps[i]);
            proof {
                crate::text::lemma_views_push(bp, p@.last());
                let next = prev.push((paths@[i as int]@, gaps@[i as int]));
                assert(clip_paths(next) =~= clip_paths(prev).push(paths@[i as int]@));
                assert(clip_gaps(next) =~= clip_gaps(prev).push(gaps@[i as int]));
            }
        }
        i = i + 1;
    }
    proof {
        assert(paths@.take(i as int) =~= paths@);
        assert(gaps@.take(i as int) =~= gaps@);
        assert(exists@.take(i as int) =~= exists@);
    }
    if p.len() == 0 {
        return Err(owned("No valid audio fragment files found"));
    }
    Ok((p, g))
}

/// The filter of a command-line mix of `n` clips: [`voice_filter`] (the
/// clips with `gaps[i]` milliseconds of silence after clip `i` but the last)
/// and, with background music (input `n`) at `volume`, the music mixed
/// under the voice into `[out]`.
pub open spec fn cli_filter(gaps: Seq<i32>, n: nat, bgm: bool, volume: Seq<char>) -> Seq<char> {
    voice_filter(gaps, n) + (if bgm {
        ";["@ + decimal(n) + ":a]volume="@ + volume
            + "[bgm];[voice][bgm]amix=inputs=2:duration=first:dropout_transition=0[out]"@
    } else {
        Seq::<char>::empty()
    })
}

/// The arguments of a command-line mix: the clips and the music as inputs,
/// [`cli_filter`] mapped to `[out]` (with music) or `[voice]`, MP3 output,
/// overwrite, and the output path.
pub open spec fn cli_mix_args_spec(paths: Seq<Seq<char>>, bgm: Option<Seq<char>>, volume: Seq<char>, gaps: Seq<i32>, out: Seq<char>) -> Seq<Seq<char>> {
    input_args(paths) + (match bgm {
        Some(b) => seq!["-i"@, b],
        None => seq![],
    }) + seq![
        "-filter_complex"@,
        cli_filter(gaps, paths.len(), bgm is Some, volume),
        "-map"@,
        if bgm is Some { "[out]"@ } else { "[voice]"@ },
        "-f"@,
        "mp3"@,
        "-y"@,
        out,
    ]
}

/// Builds the arguments of a command-line mix of `paths`, with `gaps_ms[i]`
/// milliseconds of silence after clip `i` but the last; see
/// [`cli_mix_args_spec`].
pub fn cli_mix_args(paths: &[String], bgm_path: Option<&str>, bgm_volume: &str, gaps_ms: &[i32], output_path: &str) -> (r: Vec<String>)
    ensures
        views(r@) == cli_mix_args_spec(
            views(paths@),
            match bgm_path {
                Some(b) => Some(b@),
                None => None,
            },
            bgm_volume@,
            gaps_ms@,
            output_path@,
        ),
{
    let n = paths.len();
    let mut args: Vec<String> = Vec::new();
    let mut i: usize = 0;
    assert(views(args@) =~= input_args(views(paths@.take(0))));
    while i < n
        invariant
            n == paths@.len(),
            i <= n,
            views(args@) == input_args(views(paths@.take(i as int))),
        decreases n - i,
    {
        proof {
            assert(views(paths@.take(i + 1)).drop_last() =~= views(paths@.take(i as int)));
            assert(views(paths@.take(i + 1)).last() == paths@[i as int]@);
        }
        push_arg(&mut args, "-i");
        push_arg(&mut args, paths[i].as_str());
        i = i + 1;
    }
    assert(paths@.take(n as int) =~= paths@);
    match bgm_path {
        Some(b) => {
            push_arg(&mut args, "-i");
            push_arg(&mut args, b);
        },
        None => {},
    }
    let ghost head = views(args@);
    let mut f = build_voice_filter(gaps_ms, n);
    if bgm_path.is_some() {
        append_str(&mut f, ";[");
        push_decimal(&mut f, n as u128);
        append_str(&mut f, ":a]volume=");
        append_str(&mut f, bgm_volume);
        append_str(&mut f, "[bgm];[voice][bgm]amix=inputs=2:duration=first:dropout_transition=0[out]");
    }
    let ghost fv = f@;
    push_arg(&mut args, "-filter_complex");
    let ghost before = args@;
    args.push(f);
    proof {
        crate::text::lemma_views_push(before, args@.last());
    }
    push_arg(&mut args, "-map");
    if bgm_path.is_some() {
        push_arg(&mut args, "[out]");
    } else {
        push_arg(&mut args, "[voice]");
    }
    push_arg(&mut args, "-f");
    push_arg(&mut args, "mp3");
    push_arg(&mut args, "-y");
    push_arg(&mut args, output_path);
    proof {
        let bgm_v = match bgm_path {
            Some(b) => Some(b@),
            None => None,
        };
        assert(fv =~= cli_filter(gaps_ms@, n as nat, bgm_v is Some, bgm_volume@));
        assert(views(args@) =~= head + seq![
            "-filter_complex"@,
            fv,
            "-map"@,
            if bgm_v is Some { "[out]"@ } else { "[voice]"@ },
            "-f"@,
            "mp3"@,
            "-y"@,
            output_path@,
        ]);
    }
    args
}

/// The message of a failed command-line mix: FFmpeg's first five error
/// lines.
pub open spec fn ffmpeg_failure_text(stderr: Seq<char>) -> Seq<char> {
    let lines = str_lines(stderr);
    "ffmpeg failed: "@ + join(lines.take(if lines.len() < 5 { lines.len() as int } else { 5 }), "\n"@)
}

/// Builds [`ffmpeg_failure_text`].
pub fn ffmpeg_failure_message(stderr: &str) -> (r: String)
    ensures
        r@ == ffmpeg_failure_text(stderr@),
{
    let lines = lines_of(stderr);
    let k = if lines.len() < 5 { lines.len() } else { 5 };
    let mut r = owned("ffmpeg failed: ");
    let body = join_prefix(lines.as_slice(), k, "\n");
    append_str(&mut r, body.as_str());
    proof {
        assert(views(lines@.take(k as int)) =~= views(lines@).take(k as int));
    }
    r
}


// ---------------------------------------------------------------------------
// Raw PCM for playback
// ---------------------------------------------------------------------------

/// The arguments of the FFmpeg run that decodes `path` for playback: the file
/// as input, raw signed 16-bit little-endian PCM at 44100 Hz in two channels
/// written to standard output.
pub open spec fn playback_args_spec(path: Seq<char>) -> Seq<Seq<char>> {
    seq![
        "-i"@,
        path,
        "-f"@,
        "s16le"@,
        "-acodec"@,
        "pcm_s16le"@,
        "-ar"@,
        "44100"@,
        "-ac"@,
        "2"@,
        "-"@,
    ]
}

/// Builds the FFmpeg arguments that decode `path` for playback; see
/// [`playback_args_spec`].
pub fn playback_args(path: &str) -> (r: Vec<String>)
    ensures
        views(r@) == playback_args_spec(path@),
{
    let mut r: Vec<String> = Vec::new();
    assert(views(r@) =~= seq![]);
    push_arg(&mut r, "-i");
    push_arg(&mut r, path);
    push_arg(&mut r, "-f");
    push_arg(&mut r, "s16le");
    push_arg(&mut r, "-acodec");
    push_arg(&mut r, "pcm_s16le");
    push_arg(&mut r, "-ar");
    push_arg(&mut r, "44100");
    push_arg(&mut r, "-ac");
    push_arg(&mut r, "2");
    push_arg(&mut r, "-");
    assert(views(r@) =~= playback_args_spec(path@));
    r
}

/// The signed 16-bit sample stored little-endian in the bytes `lo`, `hi`.
pub open spec fn le16(lo: u8, hi: u8) -> i16 {
    let u = lo as int + 256 * hi as int;
    (if u >= 32768 { u - 65536 } else { u }) as i16
}

/// The samples of signed 16-bit little-endian PCM: one per whole byte
/// pair, a trailing odd byte ignored.
pub open spec fn le_samples(b: Seq<u8>) -> Seq<i16> {
    Seq::new(b.len() / 2, |i: int| le16(b[2 * i], b[2 * i + 1]))
}

proof fn lemma_samples_prefix(b: Seq<u8>, c: int)
    requires
        0 <= c <= b.len(),
    ensures
        le_samples(b.take(c)).is_prefix_of(le_samples(b)),
{
    let p = le_samples(b.take(c));
    let q = le_samples(b);
    assert forall|i: int| 0 <= i < p.len() implies p[i] == q[i] by {
        assert(b.take(c)[2 * i] == b[2 * i]);
        assert(b.take(c)[2 * i + 1] == b[2 * i + 1]);
    }
}

fn decode_le16(lo: u8, hi: u8) -> (r: i16)
    ensures
        r == le16(lo, hi),
{
    let u: u32 = lo as u32 + 256 * (hi as u32);
    if u >= 32768 {
        (u as i32 - 65536) as i16
    } else {
        u as i16
    }
}

/// What the decoder yields next.
#[derive(Clone, Debug, PartialEq)]
pub enum PcmNext {
    /// The next sample.
    Sample(i16),
    /// More bytes are needed first.
    NeedInput,
    /// The stream is over.
    End,
}

/// A decoder of signed 16-bit little-endian PCM that FFmpeg streams
/// (stereo samples interleaved left, right). Bytes are fed as they arrive;
/// a stereo right sample is read together with its left one and held until
/// asked for.
pub struct PcmSource {
    sample_rate: u32,
    channels: u16,
    pending: Option<i16>,
    buf: Vec<u8>,
    pos: usize,
    ended: bool,
    fed: Ghost<Seq<u8>>,
    dropped: Ghost<nat>,
    produced: Ghost<Seq<i16>>,
}

/// Bytes kept consumed at the front of the buffer before it is compacted.
const PCM_COMPACT_AT: usize = 65536;

impl PcmSource {
    /// Every byte fed so far.
    pub closed spec fn fed(&self) -> Seq<u8> {
        self.fed@
    }

    /// Every sample yielded so far.
    pub closed spec fn produced(&self) -> Seq<i16> {
        self.produced@
    }

    /// Whether the end of the input was signalled.
    pub closed spec fn ended(&self) -> bool {
        self.ended
    }

    /// The channel count.
    pub closed spec fn spec_channels(&self) -> u16 {
        self.channels
    }

    /// The sample rate.
    pub closed spec fn spec_sample_rate(&self) -> u32 {
        self.sample_rate
    }

    /// Bytes decoded so far.
    closed spec fn consumed(&self) -> nat {
        (self.dropped@ + self.pos) as nat
    }

    /// The decoder's invariant: the buffer holds the fed bytes not yet
    /// dropped; what was yielded, with a held right sample, is the
    /// decoding of the bytes consumed; a held sample only in stereo.
    pub closed spec fn wf(&self) -> bool {
        &&& self.dropped@ + self.buf@.len() == self.fed@.len()
        &&& self.buf@ == self.fed@.skip(self.dropped@ as int)
        &&& self.pos <= self.buf@.len()
        &&& self.consumed() <= self.fed@.len()
        &&& (self.consumed() % 2 == 0 || (self.consumed() == self.fed@.len() && self.ended))
        &&& (match self.pending {
            Some(p) => self.produced@.push(p),
            None => self.produced@,
        }) == le_samples(self.fed@.take(self.consumed() as int))
        &&& (self.pending is Some ==> self.channels != 1)
    }

    /// Every sample the decoder yields is the right one: what it has
    /// yielded is always the start of the decoding of all bytes fed.
    pub proof fn law_yields_prefix(&self)
        requires
            self.wf(),
        ensures
            self.produced().is_prefix_of(le_samples(self.fed())),
    {
        lemma_samples_prefix(self.fed@, self.consumed() as int);
        let whole = le_samples(self.fed@.take(self.consumed() as int));
        assert(self.produced@.len() <= whole.len());
        assert forall|i: int| 0 <= i < self.produced@.len() implies self.produced@[i] == whole[i] by {
            match self.pending {
                Some(p) => {
                    assert(self.produced@.push(p)[i] == self.produced@[i]);
                },
                None => {},
            }
        }
    }

    /// A decoder with no input yet.
    pub fn new(sample_rate: u32, channels: u16) -> (r: Self)
        ensures
            r.wf(),
            r.fed() == Seq::<u8>::empty(),
            r.produced() == Seq::<i16>::empty(),
            !r.ended(),
            r.spec_channels() == channels,
            r.spec_sample_rate() == sample_rate,
    {
        let r = PcmSource {
            sample_rate,
            channels,
            pending: None,
            buf: Vec::new(),
            pos: 0,
            ended: false,
            fed: Ghost(Seq::empty()),
            dropped: Ghost(0),
            produced: Ghost(Seq::empty()),
        };
        assert(le_samples(Seq::<u8>::empty().take(0)) =~= Seq::<i16>::empty());
        assert(Seq::<u8>::empty().skip(0) =~= r.buf@);
        r
    }

    /// The channel count the decoder was made with.
    pub fn channels(&self) -> (c: u16)
        ensures
            c == self.spec_channels(),
    {
        self.channels
    }

    /// The sample rate the decoder was made with.
    pub fn sample_rate(&self) -> (r: u32)
        ensures
            r == self.spec_sample_rate(),
    {
        self.sample_rate
    }

    /// Feeds more bytes of the stream (before its end was signalled).
    pub fn feed(&mut self, bytes: &[u8])
        requires
            old(self).wf(),
            !old(self).ended(),
        ensures
            final(self).wf(),
            final(self).fed() == old(self).fed() + bytes@,
            final(self).produced() == old(self).produced(),
            final(self).ended() == old(self).ended(),
            final(self).spec_channels() == old(self).spec_channels(),
            final(self).spec_sample_rate() == old(self).spec_sample_rate(),
    {
        if self.pos >= PCM_COMPACT_AT {
            let mut rest: Vec<u8> = Vec::new();
            let mut i = self.pos;
            while i < self.buf.len()
                invariant
                    self.pos <= i <= self.buf@.len(),
                    rest@ == self.buf@.subrange(self.pos as int, i as int),
                decreases self.buf@.len() - i,
            {
                rest.push(self.buf[i]);
                assert(rest@ =~= self.buf@.subrange(self.pos as int, i + 1));
                i = i + 1;
            }
            proof {
                assert(self.buf@.subrange(self.pos as int, self.buf@.len() as int) =~= self.fed@.skip(
                    (self.dropped@ + self.pos) as int,
                ));
            }
            self.dropped = Ghost((self.dropped@ + self.pos) as nat);
            self.buf = rest;
            self.pos = 0;
            assert(self.buf@ == self.fed@.skip(self.dropped@ as int));
        }
        let mut k: usize = 0;
        let ghost fed0 = self.fed@;
        let ghost produced0 = self.produced@;
        let ghost pending0 = self.pending;
        let ghost c0 = (self.dropped@ + self.pos) as int;
        assert(self.buf@ == self.fed@.skip(self.dropped@ as int));
        while k < bytes.len()
            invariant
                k <= bytes@.len(),
                self.fed@ == fed0 + bytes@.take(k as int),
                self.dropped@ + self.buf@.len() == self.fed@.len(),
                self.buf@ == self.fed@.skip(self.dropped@ as int),
                self.pos <= self.buf@.len(),
                self.dropped@ + self.pos == c0,
                c0 <= fed0.len(),
                self.produced@ == produced0,
                self.pending == pending0,
                self.ended == old(self).ended,
                self.channels == old(self).channels,
                self.sample_rate == old(self).sample_rate,
            decreases bytes@.len() - k,
        {
            self.buf.push(bytes[k]);
            self.fed = Ghost(self.fed@.push(bytes@[k as int]));
            assert(bytes@.take(k + 1) =~= bytes@.take(k as int).push(bytes@[k as int]));
            assert(self.buf@ =~= self.fed@.skip(self.dropped@ as int));
            k = k + 1;
        }
        proof {
            assert(bytes@.take(k as int) =~= bytes@);
            assert(self.fed@.take(c0) =~= fed0.take(c0));
            if c0 % 2 != 0 {
                assert(c0 == fed0.len());
            }
        }
    }

    /// Signals that no more bytes will come.
    pub fn end_input(&mut self)
        requires
            old(self).wf(),
        ensures
            final(self).wf(),
            final(self).ended(),
            final(self).fed() == old(self).fed(),
            final(self).produced() == old(self).produced(),
            final(self).spec_channels() == old(self).spec_channels(),
            final(self).spec_sample_rate() == old(self).spec_sample_rate(),
    {
        self.ended = true;
    }

    /// The next sample. Mono: the next byte pair, if whole. Stereo: a held
    /// right sample first; else the next left sample, reading its right
    /// sample along to hold, or (at the end of the input) alone when no
    /// whole right sample follows. Input that is short yields `NeedInput`
    /// until the end is signalled, then `End`.
    pub fn next(&mut self) -> (r: PcmNext)
        requires
            old(self).wf(),
        ensures
            final(self).wf(),
            final(self).fed() == old(self).fed(),
            final(self).ended() == old(self).ended(),
            final(self).spec_channels() == old(self).spec_channels(),
            final(self).spec_sample_rate() == old(self).spec_sample_rate(),
            match r {
                PcmNext::Sample(x) => final(self).produced() == old(self).produced().push(x),
                _ => final(self).produced() == old(self).produced(),
            },
            r is NeedInput ==> !old(self).ended() && le_samples(old(self).fed()).len()
                <= old(self).produced().len() + (if old(self).spec_channels() == 1 { 0int } else { 1int }),
            r is End ==> old(self).ended() && final(self).produced() == le_samples(final(self).fed()),
    {
        let avail = self.buf.len() - self.pos;
        let ghost c = (self.dropped@ + self.pos) as int;
        if self.channels == 1 {
            if avail >= 2 {
                let x = decode_le16(self.buf[self.pos], self.buf[self.pos + 1]);
                proof {
                    assert(self.buf@[self.pos as int] == self.fed@[c]);
                    assert(self.buf@[self.pos + 1] == self.fed@[c + 1]);
                    assert(le_samples(self.fed@.take(c + 2)) =~= le_samples(self.fed@.take(c)).push(x));
                }
                self.pos = self.pos + 2;
                self.produced = Ghost(self.produced@.push(x));
                return PcmNext::Sample(x);
            }
            if self.ended {
                proof {
                    assert(le_samples(self.fed@) =~= le_samples(self.fed@.take(c)));
                }
                return PcmNext::End;
            }
            return PcmNext::NeedInput;
        }
        match self.pending {
            Some(p) => {
                self.pending = None;
                self.produced = Ghost(self.produced@.push(p));
                return PcmNext::Sample(p);
            },
            None => {},
        }
        if avail >= 4 {
            let left = decode_le16(self.buf[self.pos], self.buf[self.pos + 1]);
            let right = decode_le16(self.buf[self.pos + 2], self.buf[self.pos + 3]);
            proof {
                assert(self.buf@[self.pos as int] == self.fed@[c]);
                assert(self.buf@[self.pos + 1] == self.fed@[c + 1]);
                assert(self.buf@[self.pos + 2] == self.fed@[c + 2]);
                assert(self.buf@[self.pos + 3] == self.fed@[c + 3]);
                assert(le_samples(self.fed@.take(c + 4)) =~= le_samples(self.fed@.take(c)).push(left).push(right));
            }
            self.pos = self.pos + 4;
            self.pending = Some(right);
            self.produced = Ghost(self.produced@.push(left));
            return PcmNext::Sample(left);
        }
        if self.ended {
            if avail >= 2 {
                let left = decode_le16(self.buf[self.pos], self.buf[self.pos + 1]);
                proof {
                    assert(self.buf@[self.pos as int] == self.fed@[c]);
                    assert(self.buf@[self.pos + 1] == self.fed@[c + 1]);
                    assert(self.fed@.take(self.fed@.len() as int) =~= self.fed@);
                    assert(le_samples(self.fed@) =~= le_samples(self.fed@.take(c)).push(left));
                }
                self.pos = self.buf.len();
                self.produced = Ghost(self.produced@.push(left));
                return PcmNext::Sample(left);
            }
            proof {
                assert(le_samples(self.fed@) =~= le_samples(self.fed@.take(c)));
            }
            return PcmNext::End;
        }
        PcmNext::NeedInput
    }
}

} // verus!
