//! Routing of speech synthesis: which model serves a voice, whether it is
//! reached over HTTP or a realtime socket, where a line's audio is stored,
//! and which lines a batch run synthesises.

use vstd::prelude::*;
use crate::models::{Character, ScriptLine, TtsBatchProgress, VoiceConfig};
use crate::text::{append_str, contains, contains_seq, is_blank, owned, starts_with, ends_with, str_eq, trim};
use crate::tts::{
    ChunkView, TtsChunk, chars_total, chunk_pairs, chunks_view, derefs, group_chunks_into_sessions,
    sessions_of, sessions_view, split_text_for_tts, tts_chunks,
};

verus! {

broadcast use vstd::string::group_string_axioms;

/// Prefix of the names of cloned voices.
pub open spec fn vc_voice_prefix() -> Seq<char> {
    "qwen-tts-vc-voice-"@
}

/// The model a voice is synthesised with, given whether the line carries
/// voice instructions: cloned voices need the voice-cloning model; a Qwen
/// model with instructions becomes the instruct model (realtime if the
/// configured one is); an empty or CosyVoice model becomes the realtime
/// instruct model; any other configured model is used as it is.
pub open spec fn resolved_model(voice: Seq<char>, cfg: Seq<char>, has_instructions: bool) -> Seq<
    char,
> {
    if vc_voice_prefix().is_prefix_of(voice) {
        "qwen3-tts-vc-realtime-2026-01-15"@
    } else if has_instructions && "qwen"@.is_prefix_of(cfg) {
        if "-realtime"@.is_suffix_of(cfg) {
            "qwen3-tts-instruct-flash-realtime"@
        } else {
            "qwen3-tts-instruct-flash"@
        }
    } else if cfg.len() == 0 || "cosyvoice"@.is_prefix_of(cfg) {
        "qwen3-tts-instruct-flash-realtime"@
    } else {
        cfg
    }
}

/// Picks the synthesis model for `voice_config`; see [`resolved_model`].
pub fn resolve_model(voice_config: &VoiceConfig, has_instructions: bool) -> (r: String)
    ensures
        r@ == resolved_model(voice_config.voice_name@, voice_config.tts_model@, has_instructions),
{
    let cfg = voice_config.tts_model.as_str();
    let voice = voice_config.voice_name.as_str();
    if starts_with(voice, "qwen-tts-vc-voice-") {
        return owned("qwen3-tts-vc-realtime-2026-01-15");
    }
    if has_instructions && starts_with(cfg, "qwen") {
        if ends_with(cfg, "-realtime") {
            return owned("qwen3-tts-instruct-flash-realtime");
        }
        return owned("qwen3-tts-instruct-flash");
    }
    if cfg.is_empty() || starts_with(cfg, "cosyvoice") {
        return owned("qwen3-tts-instruct-flash-realtime");
    }
    owned(cfg)
}

/// Models served by the HTTP API: Qwen models that are neither realtime nor
/// voice-cloning ones. All others use the realtime socket.
pub open spec fn http_model(model: Seq<char>) -> bool {
    !(contains_seq(model, "-realtime"@) || contains_seq(model, "-vc-"@)) && "qwen"@.is_prefix_of(
        model,
    )
}

/// Whether `model` is reached over the HTTP API; see [`http_model`].
pub fn is_http_model(model: &str) -> (b: bool)
    ensures
        b == http_model(model@),
{
    if contains(model, "-realtime") || contains(model, "-vc-") {
        return false;
    }
    starts_with(model, "qwen")
}

/// A cloned voice is never routed to the HTTP API, whatever model is
/// configured and whether or not the line has instructions.
pub proof fn law_cloned_voice_uses_socket(voice: Seq<char>, cfg: Seq<char>, has_instructions: bool)
    requires
        vc_voice_prefix().is_prefix_of(voice),
    ensures
        !http_model(resolved_model(voice, cfg, has_instructions)),
{
    reveal_strlit("qwen3-tts-vc-realtime-2026-01-15");
    reveal_strlit("-realtime");
    let m = resolved_model(voice, cfg, has_instructions);
    assert(m.subrange(12int, 12int + "-realtime"@.len()) =~= "-realtime"@);
    assert(contains_seq(m, "-realtime"@));
}

// ---------------------------------------------------------------------------
// Audio paths
// ---------------------------------------------------------------------------

/// `base` with `part` appended as a path component, as `Path::join` does on
/// Unix: an absolute `part` replaces `base`; a separator is added unless
/// `base` is empty or already ends with one.
pub open spec fn path_join(base: Seq<char>, part: Seq<char>) -> Seq<char> {
    if part.len() > 0 && part[0] == '/' {
        part
    } else if base.len() == 0 || base.last() == '/' {
        base + part
    } else {
        base.push('/') + part
    }
}

/// Executable [`path_join`].
pub fn join_path(base: &str, part: &str) -> (r: String)
    ensures
        r@ == path_join(base@, part@),
{
    proof {
        reveal_strlit("/");
        assert("/"@.len() == 1 && "/"@[0] == '/');
    }
    let absolute = starts_with(part, "/");
    proof {
        if absolute {
            assert(part@.subrange(0, 1)[0] == part@[0]);
        } else if part@.len() > 0 && part@[0] == '/' {
            assert(part@.subrange(0, 1) =~= "/"@);
        }
    }
    if absolute {
        return owned(part);
    }
    let mut r = owned(base);
    let slash_end = ends_with(base, "/");
    proof {
        if base@.len() > 0 {
            let tail = base@.subrange(base@.len() - 1, base@.len() as int);
            if slash_end {
                assert(tail[0] == base@.last());
            } else if base@.last() == '/' {
                assert(tail =~= "/"@);
            }
        }
    }
    if !base.is_empty() && !slash_end {
        crate::text::push_char(&mut r, '/');
    }
    append_str(&mut r, part);
    r
}

/// Where the synthesised audio of a line is stored:
/// `<app data>/projects/<project>/audio/<line>.mp3`.
pub open spec fn audio_path(dir: Seq<char>, project_id: Seq<char>, line_id: Seq<char>) -> Seq<
    char,
> {
    path_join(
        path_join(path_join(path_join(dir, "projects"@), project_id), "audio"@),
        line_id + ".mp3"@,
    )
}

/// The tail of a line's audio path after the projects directory.
pub open spec fn audio_tail(project_id: Seq<char>, line_id: Seq<char>) -> Seq<char> {
    project_id + "/audio/"@ + line_id + ".mp3"@
}

proof fn lemma_audio_tail_injective(p1: Seq<char>, l1: Seq<char>, p2: Seq<char>, l2: Seq<char>)
    requires
        !p1.contains('/'),
        !p2.contains('/'),
        audio_tail(p1, l1) == audio_tail(p2, l2),
    ensures
        p1 == p2,
        l1 == l2,
{
    reveal_strlit("/audio/");
    reveal_strlit(".mp3");
    let t = audio_tail(p1, l1);
    assert(t == audio_tail(p2, l2));
    assert(t[p1.len() as int] == '/');
    assert(audio_tail(p2, l2)[p2.len() as int] == '/');
    if p1.len() < p2.len() {
        assert(audio_tail(p2, l2)[p1.len() as int] == p2[p1.len() as int]);
        assert(p2.contains(p2[p1.len() as int]));
    } else if p2.len() < p1.len() {
        assert(t[p2.len() as int] == p1[p2.len() as int]);
        assert(p1.contains(p1[p2.len() as int]));
    }
    assert(p1.len() == p2.len());
    assert(p1 =~= t.take(p1.len() as int));
    assert(p2 =~= audio_tail(p2, l2).take(p2.len() as int));
    let k: int = p1.len() as int + 7;
    assert(l1 =~= t.subrange(k, t.len() - 4));
    assert(l2 =~= audio_tail(p2, l2).subrange(k, t.len() - 4));
}

/// A line's audio path is `<data dir>/projects/<project>/audio/<line>.mp3`:
/// it lies under the data directory, and different (project, line) pairs
/// get different paths, for ids that are nonempty and hold no `/`.
pub proof fn law_audio_path_layout(dir: Seq<char>, p1: Seq<char>, l1: Seq<char>, p2: Seq<char>, l2: Seq<char>)
    requires
        p1.len() > 0,
        p2.len() > 0,
        !p1.contains('/'),
        !p2.contains('/'),
        !l1.contains('/'),
        !l2.contains('/'),
    ensures
        audio_path(dir, p1, l1) == path_join(dir, "projects"@).push('/') + audio_tail(p1, l1),
        audio_path(dir, p1, l1).take(dir.len() as int) == dir,
        (p1, l1) != (p2, l2) ==> audio_path(dir, p1, l1) != audio_path(dir, p2, l2),
{
    reveal_strlit("projects");
    reveal_strlit("audio");
    reveal_strlit("/audio/");
    reveal_strlit(".mp3");
    let base = path_join(dir, "projects"@);
    assert(base.last() == 's');
    assert(base.len() >= dir.len());
    assert(base.take(dir.len() as int) =~= dir);
    assert forall|p: Seq<char>, l: Seq<char>| p.len() > 0 && !p.contains('/') && !l.contains('/')
        implies #[trigger] audio_path(dir, p, l) == base.push('/') + audio_tail(p, l) by {
        assert(p[0] != '/') by {
            assert(p.contains(p[0]));
        }
        let b1 = path_join(base, p);
        assert(b1 == base.push('/') + p);
        assert(b1.last() == p.last()) by {
            assert(b1[b1.len() - 1] == p[p.len() - 1]);
        }
        assert(p.last() != '/') by {
            assert(p.contains(p[p.len() - 1]));
        }
        let b2 = path_join(b1, "audio"@);
        assert(b2 == b1.push('/') + "audio"@);
        assert(b2.last() == 'o');
        let f = l + ".mp3"@;
        if l.len() > 0 {
            assert(l.contains(l[0]));
            assert(f[0] == l[0]);
        } else {
            assert(f[0] == '.');
        }
        assert(path_join(b2, f) == b2.push('/') + f);
        assert(b2.push('/') + f =~= base.push('/') + audio_tail(p, l));
    }
    assert(audio_path(dir, p1, l1) == base.push('/') + audio_tail(p1, l1));
    assert(audio_path(dir, p2, l2) == base.push('/') + audio_tail(p2, l2));
    assert((base.push('/') + audio_tail(p1, l1)).take(dir.len() as int) =~= dir);
    if audio_path(dir, p1, l1) == audio_path(dir, p2, l2) {
        let n: int = base.len() as int + 1;
        assert(audio_tail(p1, l1) =~= audio_path(dir, p1, l1).skip(n));
        assert(audio_tail(p2, l2) =~= audio_path(dir, p2, l2).skip(n));
        lemma_audio_tail_injective(p1, l1, p2, l2);
    }
}

/// Builds the audio file path for a line of a project; see [`audio_path`].
pub fn build_audio_path(app_data_dir: &str, project_id: &str, line_id: &str) -> (r: String)
    ensures
        r@ == audio_path(app_data_dir@, project_id@, line_id@),
{
    let p1 = join_path(app_data_dir, "projects");
    let p2 = join_path(p1.as_str(), project_id);
    let p3 = join_path(p2.as_str(), "audio");
    let mut file = owned(line_id);
    append_str(&mut file, ".mp3");
    join_path(p3.as_str(), file.as_str())
}


// ---------------------------------------------------------------------------
// How one text is synthesised
// ---------------------------------------------------------------------------

/// Character budget of one realtime synthesis session (the service takes at most
/// 10000).
pub const SESSION_LIMIT_CHARS: usize = 9500;

/// How the text of one line is sent to the synthesis service.
#[derive(Clone, Debug, PartialEq)]
pub enum TtsRoute {
    /// One call with the whole text, over HTTP (`http`) or a realtime socket.
    Direct { http: bool },
    /// One HTTP call per chunk; the audio is joined with each chunk's pause
    /// after it.
    HttpChunks(Vec<TtsChunk>),
    /// One realtime session per group of chunk texts; the audio of the
    /// sessions is concatenated.
    SocketSessions(Vec<Vec<String>>),
}

/// The chunks of a text as text-and-pause pairs.
pub open spec fn zip_chunks(p: (Seq<Seq<char>>, Seq<u32>)) -> Seq<ChunkView> {
    Seq::new(p.0.len(), |i: int| (p.0[i], p.1[i]))
}

/// The texts of each session.
pub open spec fn session_texts(ss: Seq<Seq<ChunkView>>) -> Seq<Seq<Seq<char>>> {
    ss.map_values(|g: Seq<ChunkView>| g.map_values(|c: ChunkView| c.0))
}

/// The views of groups of strings.
pub open spec fn groups_view(v: Seq<Vec<String>>) -> Seq<Seq<Seq<char>>> {
    v.map_values(|g: Vec<String>| g@.map_values(|t: String| t@))
}

proof fn lemma_chunk_pairs_zip(v: Seq<TtsChunk>)
    ensures
        chunk_pairs(v) == zip_chunks(chunks_view(v)),
{
    assert(chunk_pairs(v) =~= zip_chunks(chunks_view(v)));
}

/// Copies of the texts of the chunks a group points to.
fn group_texts(g: &Vec<&TtsChunk>) -> (r: Vec<String>)
    ensures
        r@.map_values(|t: String| t@) == derefs(g@).map_values(|c: ChunkView| c.0),
{
    let mut r: Vec<String> = Vec::new();
    let mut j: usize = 0;
    while j < g.len()
        invariant
            j <= g@.len(),
            r@.len() == j,
            forall|k: int| 0 <= k < j ==> (#[trigger] r@[k])@ == g@[k].text@,
        decreases g@.len() - j,
    {
        r.push(g[j].text.clone());
        j = j + 1;
    }
    assert(r@.map_values(|t: String| t@) =~= derefs(g@).map_values(|c: ChunkView| c.0));
    r
}

/// Decides how `text` is synthesised with `model`: a text that makes at
/// most one chunk goes in one call; a longer one goes chunk by chunk over
/// HTTP, or in realtime sessions of whole chunks of at most
/// [`SESSION_LIMIT_CHARS`] each where possible.
pub fn plan_tts(text: &str, model: &str) -> (r: TtsRoute)
    requires
        chars_total(zip_chunks(tts_chunks(text@))) <= usize::MAX,
    ensures
        tts_chunks(text@).0.len() <= 1 ==> r == (TtsRoute::Direct { http: http_model(model@) }),
        tts_chunks(text@).0.len() > 1 && http_model(model@) ==> (r matches TtsRoute::HttpChunks(
            cs,
        ) && chunks_view(cs@) == tts_chunks(text@)),
        tts_chunks(text@).0.len() > 1 && !http_model(model@) ==> (r matches TtsRoute::SocketSessions(
            ss,
        ) && groups_view(ss@) == session_texts(
            sessions_of(zip_chunks(tts_chunks(text@)), SESSION_LIMIT_CHARS as nat),
        )),
{
    let chunks = split_text_for_tts(text);
    proof {
        crate::tts::law_chunk_shape(text@);
    }
    if chunks.len() <= 1 {
        return TtsRoute::Direct { http: is_http_model(model) };
    }
    if is_http_model(model) {
        return TtsRoute::HttpChunks(chunks);
    }
    proof {
        lemma_chunk_pairs_zip(chunks@);
    }
    let groups = group_chunks_into_sessions(chunks.as_slice(), SESSION_LIMIT_CHARS);
    let mut out: Vec<Vec<String>> = Vec::new();
    let mut i: usize = 0;
    while i < groups.len()
        invariant
            i <= groups@.len(),
            out@.len() == i,
            forall|k: int|
                0 <= k < i ==> (#[trigger] out@[k])@.map_values(|t: String| t@) == derefs(
                    groups@[k]@,
                ).map_values(|c: ChunkView| c.0),
        decreases groups@.len() - i,
    {
        let texts = group_texts(&groups[i]);
        out.push(texts);
        i = i + 1;
    }
    proof {
        assert(groups_view(out@) =~= session_texts(sessions_view(groups@)));
    }
    TtsRoute::SocketSessions(out)
}

// ---------------------------------------------------------------------------
// Batch synthesis of a project
// ---------------------------------------------------------------------------

/// A line that batch synthesis will voice.
#[derive(Clone, Debug, PartialEq)]
pub struct BatchItem {
    pub id: String,
    pub text: String,
    pub instructions: String,
    pub voice: VoiceConfig,
}

/// Index of the last character whose id is `id`, or -1.
pub open spec fn last_character_with_id(chars: Seq<Character>, id: Seq<char>) -> int
    decreases chars.len(),
{
    if chars.len() == 0 {
        -1
    } else if chars.last().id@ == id {
        chars.len() - 1
    } else {
        last_character_with_id(chars.drop_last(), id)
    }
}

/// The voice (name, model) a line with character `cid` is read with: that
/// of the character with this id (the last one listed, if several), else an
/// empty voice and model.
pub open spec fn voice_for(cid: Option<String>, chars: Seq<Character>) -> (Seq<char>, Seq<char>) {
    match cid {
        Some(c) => {
            let k = last_character_with_id(chars, c@);
            if k >= 0 {
                (chars[k].voice_name@, chars[k].tts_model@)
            } else {
                (Seq::<char>::empty(), Seq::<char>::empty())
            }
        },
        None => (Seq::<char>::empty(), Seq::<char>::empty()),
    }
}

/// A batch item as plain values: id, text, instructions, voice name, model.
pub type BatchView = (Seq<char>, Seq<char>, Seq<char>, Seq<char>, Seq<char>);

pub open spec fn batch_item_view(b: BatchItem) -> BatchView {
    (b.id@, b.text@, b.instructions@, b.voice.voice_name@, b.voice.tts_model@)
}

/// `s` holds a string with the characters `t`.
pub open spec fn has_string(s: Seq<String>, t: Seq<char>) -> bool {
    exists|i: int| 0 <= i < s.len() && (#[trigger] s[i])@ == t
}

/// The lines batch synthesis voices, in script order: those without audio
/// yet and with some text, each with its character's voice.
pub open spec fn batch_plan(lines: Seq<ScriptLine>, done: Seq<String>, chars: Seq<Character>) -> Seq<
    BatchView,
>
    decreases lines.len(),
{
    if lines.len() == 0 {
        seq![]
    } else {
        let prev = batch_plan(lines.drop_last(), done, chars);
        let l = lines.last();
        if !has_string(done, l.id@) && trim(l.text@).len() > 0 {
            let v = voice_for(l.character_id, chars);
            prev.push((l.id@, l.text@, l.instructions@, v.0, v.1))
        } else {
            prev
        }
    }
}

/// A batch run that gave audio to every line it planned leaves nothing for
/// the next run: once the lines with audio include those that had it and
/// those the batch voiced, batch synthesis plans no line.
pub proof fn law_batch_completes(lines: Seq<ScriptLine>, done: Seq<String>, chars: Seq<Character>, after: Seq<String>)
    requires
        forall|i: int| 0 <= i < done.len() ==> has_string(after, (#[trigger] done[i])@),
        forall|j: int|
            0 <= j < batch_plan(lines, done, chars).len() ==> has_string(
                after,
                (#[trigger] batch_plan(lines, done, chars)[j]).0,
            ),
    ensures
        batch_plan(lines, after, chars).len() == 0,
    decreases lines.len(),
{
    if lines.len() > 0 {
        let init = lines.drop_last();
        let l = lines.last();
        let p = batch_plan(lines, done, chars);
        let q = batch_plan(init, done, chars);
        assert forall|j: int| 0 <= j < q.len() implies has_string(after, (#[trigger] q[j]).0) by {
            assert(p[j] == q[j]);
        }
        law_batch_completes(init, done, chars, after);
        if !has_string(done, l.id@) && trim(l.text@).len() > 0 {
            assert(p[p.len() - 1].0 == l.id@);
        } else if has_string(done, l.id@) {
            let i = choose|i: int| 0 <= i < done.len() && (#[trigger] done[i])@ == l.id@;
            assert(has_string(after, done[i]@));
        }
    }
}

/// Whether `s` holds a string equal to `t`.
fn holds_string(s: &[String], t: &str) -> (b: bool)
    ensures
        b == has_string(s@, t@),
{
    let mut i: usize = 0;
    while i < s.len()
        invariant
            i <= s@.len(),
            forall|j: int| 0 <= j < i ==> (#[trigger] s@[j])@ != t@,
        decreases s@.len() - i,
    {
        if str_eq(s[i].as_str(), t) {
            return true;
        }
        i = i + 1;
    }
    false
}

/// The voice of character `cid`; see [`voice_for`].
fn lookup_voice(cid: &Option<String>, chars: &[Character]) -> (r: VoiceConfig)
    ensures
        (r.voice_name@, r.tts_model@) == voice_for(*cid, chars@),
{
    match cid {
        None => VoiceConfig { voice_name: String::new(), tts_model: String::new() },
        Some(c) => {
            let mut k = chars.len();
            assert(chars@.take(k as int) =~= chars@);
            while k > 0 && !str_eq(chars[k - 1].id.as_str(), c.as_str())
                invariant
                    k <= chars@.len(),
                    last_character_with_id(chars@, c@) == last_character_with_id(
                        chars@.take(k as int),
                        c@,
                    ),
                decreases k,
            {
                assert(chars@.take(k as int).drop_last() =~= chars@.take(k - 1));
                k = k - 1;
            }
            proof {
                if k > 0 {
                    assert(chars@.take(k as int).last() == chars@[k - 1]);
                }
                assert(chars@.take(k as int).len() == k);
            }
            if k == 0 {
                VoiceConfig { voice_name: String::new(), tts_model: String::new() }
            } else {
                VoiceConfig {
                    voice_name: chars[k - 1].voice_name.clone(),
                    tts_model: chars[k - 1].tts_model.clone(),
                }
            }
        },
    }
}

/// The lines of a script that batch synthesis voices: those whose id has no
/// audio fragment yet (`done` lists the line ids that have one) and whose
/// text is not blank, in script order, each with its character's voice; a
/// line without a known character gets an empty voice and model.
pub fn plan_batch_tts(lines: &[ScriptLine], done: &[String], chars: &[Character]) -> (r: Vec<
    BatchItem,
>)
    ensures
        r@.map_values(|b: BatchItem| batch_item_view(b)) == batch_plan(lines@, done@, chars@),
{
    let mut r: Vec<BatchItem> = Vec::new();
    let mut i: usize = 0;
    while i < lines.len()
        invariant
            i <= lines@.len(),
            r@.map_values(|b: BatchItem| batch_item_view(b)) == batch_plan(
                lines@.take(i as int),
                done@,
                chars@,
            ),
        decreases lines@.len() - i,
    {
        let l = &lines[i];
        proof {
            assert(lines@.take(i + 1).drop_last() =~= lines@.take(i as int));
            assert(lines@.take(i + 1).last() == lines@[i as int]);
        }
        let ghost before = r@;
        if !holds_string(done, l.id.as_str()) && !is_blank(l.text.as_str()) {
            let voice = lookup_voice(&l.character_id, chars);
            r.push(
                BatchItem {
                    id: l.id.clone(),
                    text: l.text.clone(),
                    instructions: l.instructions.clone(),
                    voice,
                },
            );
            assert(r@.map_values(|b: BatchItem| batch_item_view(b)) =~= before.map_values(
                |b: BatchItem| batch_item_view(b),
            ).push(batch_item_view(r@.last())));
        }
        i = i + 1;
    }
    assert(lines@.take(lines@.len() as int) =~= lines@);
    r
}

/// The model batch synthesis uses for `item`: instructions count when they
/// are not empty (blank ones included).
pub fn batch_model(item: &BatchItem) -> (r: String)
    ensures
        r@ == resolved_model(item.voice.voice_name@, item.voice.tts_model@, item.instructions@.len() > 0),
{
    resolve_model(&item.voice, !item.instructions.as_str().is_empty())
}

/// How the synthesis of one batch line ended.
#[derive(Clone, Debug, PartialEq)]
pub enum BatchOutcome {
    /// Audio written and recorded.
    Saved,
    /// The synthesis service failed, with its message.
    SynthesisFailed(String),
    /// The synthesis did not finish in time.
    TimedOut,
    /// The audio file could not be written, with the reason.
    WriteFailed(String),
    /// The audio fragment could not be recorded, with the reason.
    SaveFailed(String),
}

/// Index of the first item whose id is `id`, or `items.len()`.
pub open spec fn first_item_with_id(items: Seq<BatchItem>, id: Seq<char>) -> int
    decreases items.len(),
{
    if items.len() == 0 {
        0
    } else if items[0].id@ == id {
        0
    } else {
        1 + first_item_with_id(items.drop_first(), id)
    }
}

/// The error text a batch outcome reports.
pub open spec fn outcome_error(o: BatchOutcome) -> Option<Seq<char>> {
    match o {
        BatchOutcome::Saved => None,
        BatchOutcome::SynthesisFailed(m) => Some(m@),
        BatchOutcome::TimedOut => Some("Timeout"@),
        BatchOutcome::WriteFailed(m) => Some("Write: "@ + m@),
        BatchOutcome::SaveFailed(m) => Some("DB: "@ + m@),
    }
}

proof fn lemma_first_item(items: Seq<BatchItem>, id: Seq<char>, p: int)
    requires
        0 <= p < items.len(),
        items[p].id@ == id,
        forall|j: int| 0 <= j < p ==> items[j].id@ != id,
    ensures
        first_item_with_id(items, id) == p,
    decreases p,
{
    if p > 0 {
        assert forall|j: int| 0 <= j < p - 1 implies items.drop_first()[j].id@ != id by {
            assert(items.drop_first()[j] == items[j + 1]);
        }
        assert(items.drop_first()[p - 1] == items[p]);
        lemma_first_item(items.drop_first(), id, p - 1);
    }
}

/// The progress report after line `k` of a batch: its rank (one plus the
/// position of the first item with its id), the number of items, its id,
/// whether it was saved, and the error text of a failure.
pub fn batch_progress(items: &[BatchItem], k: usize, outcome: BatchOutcome) -> (r: TtsBatchProgress)
    requires
        k < items@.len(),
    ensures
        r.current == first_item_with_id(items@, items@[k as int].id@) + 1,
        r.total == items@.len(),
        r.line_id@ == items@[k as int].id@,
        r.success == (outcome is Saved),
        (match r.error {
            Some(e) => outcome_error(outcome) == Some(e@),
            None => outcome_error(outcome) is None,
        }),
{
    let id = items[k].id.as_str();
    let mut p: usize = 0;
    while p < k && !str_eq(items[p].id.as_str(), id)
        invariant
            p <= k < items@.len(),
            id@ == items@[k as int].id@,
            forall|j: int| 0 <= j < p ==> items@[j].id@ != id@,
        decreases k - p,
    {
        p = p + 1;
    }
    proof {
        lemma_first_item(items@, id@, p as int);
    }
    let success = match &outcome {
        BatchOutcome::Saved => true,
        _ => false,
    };
    let error = match outcome {
        BatchOutcome::Saved => None,
        BatchOutcome::SynthesisFailed(m) => Some(m),
        BatchOutcome::TimedOut => Some(owned("Timeout")),
        BatchOutcome::WriteFailed(m) => {
            let mut e = owned("Write: ");
            append_str(&mut e, m.as_str());
            Some(e)
        },
        BatchOutcome::SaveFailed(m) => {
            let mut e = owned("DB: ");
            append_str(&mut e, m.as_str());
            Some(e)
        },
    };
    TtsBatchProgress {
        current: p + 1,
        total: items.len(),
        line_id: items[k].id.clone(),
        success,
        error,
    }
}

} // verus!
