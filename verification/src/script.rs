//! Reading a language model's reply into a script: the streamed reply's
//! data lines, the JSON candidates taken from the reply, the choice among
//! what parsed, and the conversion of the reply into script sections and
//! lines of a project.

use vstd::prelude::*;
use crate::agent::{AgentPlan, SuggestedCharacter};
use crate::json::{auto_complete_json, completion, object_span, fence_body, lemma_first_index, lemma_last_index, ticks, extract_json_object, FenceRule, unfence, unfenced_reply, unfence_script, unfence_plan, extract_json, json_in, json_candidate, parses_as_json};
use crate::models::{Character, LlmScriptLine, LlmScriptResponse, LlmSection, ScriptLine, ScriptSection};
use crate::text::{append_str, owned, str_eq, str_lines, lines_of, starts_with, string_from_chars, chars_of, trim, trim_chars, trim_end, trim_start, views, lemma_trim_start_skip, lemma_trim_end_take};

verus! {

broadcast use vstd::string::group_string_axioms;

// ---------------------------------------------------------------------------
// Requests and streamed replies
// ---------------------------------------------------------------------------

/// The chat completions address under an API endpoint (trailing slashes of
/// the endpoint dropped).
pub open spec fn chat_url_text(endpoint: Seq<char>) -> Seq<char> {
    crate::json::trim_end_char(endpoint, '/') + "/chat/completions"@
}

/// Builds the chat completions address; see [`chat_url_text`].
pub fn chat_url(endpoint: &str) -> (r: String)
    ensures
        r@ == chat_url_text(endpoint@),
{
    let mut r = endpoint_base(endpoint);
    append_str(&mut r, "/chat/completions");
    r
}

/// An API endpoint without its trailing slashes.
fn endpoint_base(endpoint: &str) -> (r: String)
    ensures
        r@ == crate::json::trim_end_char(endpoint@, '/'),
{
    let v = chars_of(endpoint);
    let mut b = v.len();
    while b > 0 && v[b - 1] == '/'
        invariant
            b <= v@.len(),
            forall|j: int| b <= j < v@.len() ==> v@[j] == '/',
        decreases b,
    {
        b = b - 1;
    }
    proof {
        crate::json::lemma_trim_end_char_at(v@, '/', b as int);
    }
    let r = string_from_chars(&v, 0, b);
    assert(v@.subrange(0, b as int) =~= v@.take(b as int));
    r
}

/// The embeddings address under an API endpoint (trailing slashes of the
/// endpoint dropped).
pub open spec fn embeddings_url_text(endpoint: Seq<char>) -> Seq<char> {
    crate::json::trim_end_char(endpoint, '/') + "/embeddings"@
}

/// Builds the embeddings address; see [`embeddings_url_text`].
pub fn embeddings_url(endpoint: &str) -> (r: String)
    ensures
        r@ == embeddings_url_text(endpoint@),
{
    let mut r = endpoint_base(endpoint);
    append_str(&mut r, "/embeddings");
    r
}

/// The first `n` characters of `s` (all of it when shorter).
pub open spec fn first_chars(s: Seq<char>, n: nat) -> Seq<char> {
    if s.len() <= n {
        s
    } else {
        s.take(n as int)
    }
}

/// The first `n` characters of `s`; see [`first_chars`].
pub fn take_chars(s: &str, n: usize) -> (r: String)
    ensures
        r@ == first_chars(s@, n as nat),
{
    let v = chars_of(s);
    let k = if v.len() <= n {
        v.len()
    } else {
        n
    };
    let r = string_from_chars(&v, 0, k);
    assert(v@.subrange(0, k as int) =~= first_chars(s@, n as nat));
    r
}

/// The data payload of one line of a server-sent event stream: the trimmed
/// line after `data: `, unless it is blank or the `[DONE]` marker.
pub open spec fn sse_payload(line: Seq<char>) -> Option<Seq<char>> {
    let t = trim(line);
    if t.len() == 0 || t == "data: [DONE]"@ {
        None
    } else if "data: "@.is_prefix_of(t) {
        Some(t.skip(6))
    } else {
        None
    }
}

/// The data payloads of the lines of a chunk of a stream, in order.
pub open spec fn sse_payloads_of(lines: Seq<Seq<char>>) -> Seq<Seq<char>>
    decreases lines.len(),
{
    if lines.len() == 0 {
        seq![]
    } else {
        let prev = sse_payloads_of(lines.drop_last());
        match sse_payload(lines.last()) {
            Some(p) => prev.push(p),
            None => prev,
        }
    }
}

/// The data payloads in a chunk of a server-sent event stream: for each of
/// its lines, see [`sse_payload`].
pub fn sse_payloads(chunk: &str) -> (r: Vec<String>)
    ensures
        views(r@) == sse_payloads_of(str_lines(chunk@)),
{
    proof {
        reveal_strlit("data: ");
        reveal_strlit("data: [DONE]");
    }
    let lines = lines_of(chunk);
    let mut r: Vec<String> = Vec::new();
    let mut i: usize = 0;
    while i < lines.len()
        invariant
            i <= lines@.len(),
            views(r@) == sse_payloads_of(views(lines@.take(i as int))),
        decreases lines@.len() - i,
    {
        proof {
            assert(views(lines@.take(i + 1)).drop_last() =~= views(lines@.take(i as int)));
            assert(views(lines@.take(i + 1)).last() == lines@[i as int]@);
        }
        let t = trim_chars(lines[i].as_str());
        let tl = t.len();
        let ts = string_from_chars(&t, 0, tl);
        assert(t@.subrange(0, tl as int) =~= t@);
        let done = str_eq(ts.as_str(), "data: [DONE]");
        let is_data = starts_with(ts.as_str(), "data: ");
        proof {
            reveal_strlit("data: ");
        }
        if tl > 0 && !done && is_data {
            let p = string_from_chars(&t, 6, tl);
            let ghost before = r@;
            r.push(p);
            proof {
                crate::text::lemma_views_push(before, r@.last());
                assert(t@.subrange(6, tl as int) =~= t@.skip(6));
            }
        }
        i = i + 1;
    }
    assert(lines@.take(i as int) =~= lines@);
    r
}


// ---------------------------------------------------------------------------
// JSON candidates of a reply and the choice among what parsed
// ---------------------------------------------------------------------------

/// The JSON text that script parsing reads from a reply: the trimmed,
/// unfenced reply, narrowed to its object span when it has one.
pub open spec fn llm_json_text(text: Seq<char>) -> Seq<char> {
    let s = unfence_script(trim(text));
    match object_span(s) {
        Some(o) => o,
        None => s,
    }
}

/// Prose around a reply's JSON object, or a markdown fence around it, does
/// not change what script parsing reads: for an object text `j` (from `{`
/// to `}`), prose `p` before it holding no `{` and prose `q` after it
/// holding no `}` (the whole, trimmed, not opening with a fence), the JSON
/// text read from `p + j + q` is `j`, and so is the one read from `j` in a
/// `json` fence.
pub proof fn law_script_json_ignores_prose_and_fence(p: Seq<char>, j: Seq<char>, q: Seq<char>)
    requires
        j.len() >= 2,
        j[0] == '{',
        j.last() == '}',
        !p.contains('{'),
        !q.contains('}'),
        !ticks().is_prefix_of(trim(p + j + q)),
    ensures
        llm_json_text(p + j + q) == j,
        llm_json_text("```json\n"@ + j + "\n```"@) == j,
{
    // Prose around the object.
    let s = p + j + q;
    let a = p.len() as int;
    let b = a + j.len() - 1;
    assert(s[a] == '{');
    assert(s[b] == '}');
    let k = lemma_trim_start_skip(s, a);
    let s1 = s.skip(k);
    assert(s1[b - k] == s[b]);
    let m = lemma_trim_end_take(s1, b - k);
    let u = s1.take(m);
    assert(trim(s) == u);
    assert(unfence_script(u) == u);
    assert forall|x: int| 0 <= x < a - k implies u[x] != '{' by {
        assert(u[x] == p[x + k]);
        assert(p.contains(p[x + k]));
    }
    assert(u[a - k] == '{');
    lemma_first_index(u, '{', a - k);
    assert forall|x: int| b - k < x < u.len() implies u[x] != '}' by {
        assert(u[x] == q[x + k - a - j.len()]);
        assert(q.contains(q[x + k - a - j.len()]));
    }
    assert(u[b - k] == '}');
    lemma_last_index(u, '}', b - k);
    assert(u.subrange(a - k, b - k + 1) =~= j);

    // A fenced object.
    reveal_strlit("```json\n");
    reveal_strlit("\n```");
    let f = "```json\n"@ + j + "\n```"@;
    assert(trim_start(f) == f);
    assert(trim_end(f) == f);
    assert(ticks().is_prefix_of(f)) by {
        assert(f.take(3) =~= ticks());
    }
    assert forall|x: int| 0 <= x < 7 implies f[x] != '\n' by {}
    assert(f[7] == '\n');
    lemma_first_index(f, '\n', 7);
    let body = f.skip(8);
    assert(body =~= j + "\n```"@);
    assert(trim_start(body) == body);
    assert(body.last() == '`');
    assert(trim_end(body) == body);
    assert(ticks().is_suffix_of(body)) by {
        assert(body.subrange(body.len() - 3, body.len() as int) =~= ticks());
    }
    let w = body.take(body.len() - 3);
    assert(w =~= j.push('\n'));
    assert(fence_body(f) == w);
    assert(unfence_script(f) == w);
    lemma_first_index(w, '{', 0);
    assert forall|x: int| j.len() - 1 < x < w.len() implies w[x] != '}' by {}
    lemma_last_index(w, '}', j.len() - 1);
    assert(w.subrange(0, j.len() as int) =~= j);
}

/// The two texts script parsing tries, in order: [`llm_json_text`] and its
/// completion (see `auto_complete_json`).
pub fn llm_json_candidates(text: &str) -> (r: (String, String))
    ensures
        r.0@ == llm_json_text(text@),
        r.1@ == r.0@ + completion(r.0@),
{
    let stripped = unfenced_reply(text, FenceRule::Script);
    let json_str = match extract_json_object(stripped.as_str()) {
        Some(o) => o,
        None => stripped,
    };
    let completed = auto_complete_json(json_str.as_str());
    (json_str, completed)
}

/// The script an old-format reply (a bare list of lines) stands for: one
/// section titled `Main` with those lines, or nothing when it has none.
pub fn old_format_response(lines: Vec<LlmScriptLine>) -> (r: Option<LlmScriptResponse>)
    ensures
        lines@.len() == 0 ==> r is None,
        lines@.len() > 0 ==> (r matches Some(resp) && resp.sections@.len() == 1
            && resp.sections@[0].title@ == "Main"@ && resp.sections@[0].lines@ == lines@),
{
    if lines.len() == 0 {
        return None;
    }
    let mut sections: Vec<LlmSection> = Vec::new();
    sections.push(LlmSection { title: owned("Main"), lines });
    Some(LlmScriptResponse { sections })
}

/// The error of a reply that is no script in either format.
pub open spec fn llm_parse_error_text(json_str: Seq<char>) -> Seq<char> {
    "Cannot parse as sections or lines format, raw: "@ + first_chars(json_str, 500)
}

/// The script of a reply, given what its candidates parsed to: as a
/// sections script, the JSON text and then its completion; else as an
/// old-format line list, the JSON text and then its completion (an empty
/// list counting as no script); else an error quoting the start of the JSON
/// text.
pub fn decide_llm_parse(
    json_str: &str,
    sections: Option<LlmScriptResponse>,
    sections_completed: Option<LlmScriptResponse>,
    old_lines: Option<Vec<LlmScriptLine>>,
    old_lines_completed: Option<Vec<LlmScriptLine>>,
) -> (r: Result<LlmScriptResponse, String>)
    ensures
        sections is Some ==> r == Ok::<LlmScriptResponse, String>(sections.unwrap()),
        sections is None && sections_completed is Some ==> r == Ok::<LlmScriptResponse, String>(
            sections_completed.unwrap(),
        ),
        sections is None && sections_completed is None && (old_lines matches Some(l) && l@.len() > 0)
            ==> (r matches Ok(resp) && resp.sections@.len() == 1 && resp.sections@[0].title@ == "Main"@
            && resp.sections@[0].lines@ == old_lines.unwrap()@),
        sections is None && sections_completed is None && !(old_lines matches Some(l) && l@.len() > 0)
            && (old_lines_completed matches Some(l) && l@.len() > 0) ==> (r matches Ok(resp)
            && resp.sections@.len() == 1 && resp.sections@[0].title@ == "Main"@
            && resp.sections@[0].lines@ == old_lines_completed.unwrap()@),
        sections is None && sections_completed is None && !(old_lines matches Some(l) && l@.len() > 0)
            && !(old_lines_completed matches Some(l) && l@.len() > 0) ==> (r matches Err(m) && m@
            == llm_parse_error_text(json_str@)),
{
    if let Some(resp) = sections {
        return Ok(resp);
    }
    if let Some(resp) = sections_completed {
        return Ok(resp);
    }
    if let Some(lines) = old_lines {
        if let Some(resp) = old_format_response(lines) {
            return Ok(resp);
        }
    }
    if let Some(lines) = old_lines_completed {
        if let Some(resp) = old_format_response(lines) {
            return Ok(resp);
        }
    }
    let mut m = owned("Cannot parse as sections or lines format, raw: ");
    let head = take_chars(json_str, 500);
    append_str(&mut m, head.as_str());
    Err(m)
}

/// The reply text that plan parsing reads: trimmed and unfenced.
pub open spec fn plan_reply_text(text: Seq<char>) -> Seq<char> {
    unfence_plan(trim(text))
}

/// The texts plan parsing tries, in order: the unfenced reply, then (when
/// it has one) its object span and that span's completion.
pub fn plan_json_candidates(text: &str) -> (r: (String, Option<(String, String)>))
    ensures
        r.0@ == plan_reply_text(text@),
        match r.1 {
            Some((o, c)) => object_span(r.0@) == Some(o@) && c@ == o@ + completion(o@),
            None => object_span(r.0@) is None,
        },
{
    let stripped = unfenced_reply(text, FenceRule::Plan);
    let span = match extract_json_object(stripped.as_str()) {
        Some(o) => {
            let c = auto_complete_json(o.as_str());
            Some((o, c))
        },
        None => None,
    };
    (stripped, span)
}

/// The error of a reply that is no plan.
pub open spec fn plan_parse_error_text(stripped: Seq<char>) -> Seq<char> {
    "Cannot parse AgentPlan from: "@ + first_chars(stripped, 300)
}

/// The plan of a reply, given what its candidates parsed to, in the order
/// of [`plan_json_candidates`]; else an error quoting the start of the
/// unfenced reply.
pub fn decide_plan_parse(stripped: &str, direct: Option<AgentPlan>, object: Option<AgentPlan>, completed: Option<AgentPlan>) -> (r: Result<AgentPlan, String>)
    ensures
        direct is Some ==> r == Ok::<AgentPlan, String>(direct.unwrap()),
        direct is None && object is Some ==> r == Ok::<AgentPlan, String>(object.unwrap()),
        direct is None && object is None && completed is Some ==> r == Ok::<AgentPlan, String>(
            completed.unwrap(),
        ),
        direct is None && object is None && completed is None ==> (r matches Err(m) && m@
            == plan_parse_error_text(stripped@)),
{
    if let Some(p) = direct {
        return Ok(p);
    }
    if let Some(p) = object {
        return Ok(p);
    }
    if let Some(p) = completed {
        return Ok(p);
    }
    let mut m = owned("Cannot parse AgentPlan from: ");
    let head = take_chars(stripped, 300);
    append_str(&mut m, head.as_str());
    Err(m)
}

/// The texts a typed JSON reply is read from, in order: the extracted JSON
/// and its completion; an error when the reply holds none.
pub fn json_fallback_candidates(text: &str) -> (r: Result<(String, String), String>)
    ensures
        match r {
            Ok((j, c)) => json_in(json_candidate(text@), parses_as_json(json_candidate(text@)))
                == Some(j@) && c@ == j@ + completion(j@),
            Err(m) => json_in(json_candidate(text@), parses_as_json(json_candidate(text@))) is None
                && m@ == "No JSON found in response"@,
        },
{
    match extract_json(text) {
        Some(j) => {
            let c = auto_complete_json(j.as_str());
            Ok((j, c))
        },
        None => Err(owned("No JSON found in response")),
    }
}


// ---------------------------------------------------------------------------
// Characters of a reply
// ---------------------------------------------------------------------------

/// Index of the first character named `n`, or `chars.len()`.
pub open spec fn first_named(chars: Seq<Character>, n: Seq<char>) -> int
    decreases chars.len(),
{
    if chars.len() == 0 {
        0
    } else if chars[0].name@ == n {
        0
    } else {
        1 + first_named(chars.drop_first(), n)
    }
}

/// Index of the last character named `n`, or -1.
pub open spec fn last_named(chars: Seq<Character>, n: Seq<char>) -> int
    decreases chars.len(),
{
    if chars.len() == 0 {
        -1
    } else if chars.last().name@ == n {
        chars.len() - 1
    } else {
        last_named(chars.drop_last(), n)
    }
}

/// The id of the (first) character named `name`, if any.
pub open spec fn resolved_character(name: Option<Seq<char>>, chars: Seq<Character>) -> Option<Seq<char>> {
    match name {
        Some(n) => {
            let k = first_named(chars, n);
            if k < chars.len() {
                Some(chars[k].id@)
            } else {
                None
            }
        },
        None => None,
    }
}

pub proof fn lemma_first_named(chars: Seq<Character>, n: Seq<char>, k: int)
    requires
        0 <= k <= chars.len(),
        forall|j: int| 0 <= j < k ==> chars[j].name@ != n,
        k == chars.len() || chars[k].name@ == n,
    ensures
        first_named(chars, n) == k,
    decreases k,
{
    if k > 0 {
        assert forall|j: int| 0 <= j < k - 1 implies chars.drop_first()[j].name@ != n by {
            assert(chars.drop_first()[j] == chars[j + 1]);
        }
        if k < chars.len() {
            assert(chars.drop_first()[k - 1] == chars[k]);
        }
        lemma_first_named(chars.drop_first(), n, k - 1);
    }
}

/// Index of the first character named `n`, or `chars.len()`.
fn find_first_named(chars: &[Character], n: &str) -> (k: usize)
    ensures
        k == first_named(chars@, n@),
        k <= chars@.len(),
{
    let mut k: usize = 0;
    while k < chars.len() && !str_eq(chars[k].name.as_str(), n)
        invariant
            k <= chars@.len(),
            forall|j: int| 0 <= j < k ==> chars@[j].name@ != n@,
        decreases chars@.len() - k,
    {
        k = k + 1;
    }
    proof {
        lemma_first_named(chars@, n@, k as int);
    }
    k
}

/// The id of the character named `name`, if any (the first one listed);
/// see [`resolved_character`].
pub fn resolve_character(name: &Option<String>, characters: &[Character]) -> (r: Option<String>)
    ensures
        crate::dashscope::opt_view(r) == resolved_character(crate::dashscope::opt_view(*name), characters@),
{
    match name {
        Some(n) => {
            let k = find_first_named(characters, n.as_str());
            if k < characters.len() {
                Some(characters[k].id.clone())
            } else {
                None
            }
        },
        None => None,
    }
}

/// A suggested character as plain values: name, role, matched, id.
pub open spec fn suggestion_view(sc: SuggestedCharacter) -> (Seq<char>, Seq<char>, bool, Option<Seq<char>>) {
    (sc.name@, sc.role@, sc.matched_existing, crate::dashscope::opt_view(sc.existing_id))
}

/// A suggested character matched against the project's characters: one
/// named like a project character (the last listed, if several) is marked
/// as existing with that character's id; others are left as they are.
pub open spec fn enriched(sc: SuggestedCharacter, chars: Seq<Character>) -> (Seq<char>, Seq<char>, bool, Option<Seq<char>>) {
    let k = last_named(chars, sc.name@);
    if k >= 0 {
        (sc.name@, sc.role@, true, Some(chars[k].id@))
    } else {
        suggestion_view(sc)
    }
}

/// Matches the suggested characters of a plan against the project's
/// characters; see [`enriched`]. Everything else of the plan is kept.
pub fn enrich_plan(plan: AgentPlan, characters: &[Character]) -> (r: AgentPlan)
    ensures
        r.chapters == plan.chapters,
        r.overall_style == plan.overall_style,
        r.character_notes == plan.character_notes,
        r.suggested_characters@.len() == plan.suggested_characters@.len(),
        forall|i: int| 0 <= i < r.suggested_characters@.len() ==> suggestion_view(
            #[trigger] r.suggested_characters@[i],
        ) == enriched(plan.suggested_characters@[i], characters@),
{
    let AgentPlan { chapters, suggested_characters, overall_style, character_notes } = plan;
    let mut out: Vec<SuggestedCharacter> = Vec::new();
    let mut i: usize = 0;
    while i < suggested_characters.len()
        invariant
            i <= suggested_characters@.len(),
            out@.len() == i,
            forall|j: int| 0 <= j < i ==> suggestion_view(#[trigger] out@[j]) == enriched(
                suggested_characters@[j],
                characters@,
            ),
        decreases suggested_characters@.len() - i,
    {
        let sc = &suggested_characters[i];
        let mut k = characters.len();
        assert(characters@.take(k as int) =~= characters@);
        while k > 0 && !str_eq(characters[k - 1].name.as_str(), sc.name.as_str())
            invariant
                k <= characters@.len(),
                last_named(characters@, sc.name@) == last_named(characters@.take(k as int), sc.name@),
            decreases k,
        {
            assert(characters@.take(k as int).drop_last() =~= characters@.take(k - 1));
            k = k - 1;
        }
        proof {
            if k > 0 {
                assert(characters@.take(k as int).last() == characters@[k - 1]);
            }
        }
        let item = if k > 0 {
            SuggestedCharacter {
                name: sc.name.clone(),
                role: sc.role.clone(),
                matched_existing: true,
                existing_id: Some(characters[k - 1].id.clone()),
            }
        } else {
            SuggestedCharacter {
                name: sc.name.clone(),
                role: sc.role.clone(),
                matched_existing: sc.matched_existing,
                existing_id: match &sc.existing_id {
                    Some(e) => Some(e.clone()),
                    None => None,
                },
            }
        };
        out.push(item);
        i = i + 1;
    }
    AgentPlan { chapters, suggested_characters: out, overall_style, character_notes }
}


// ---------------------------------------------------------------------------
// A reply as script sections and lines
// ---------------------------------------------------------------------------

/// `uuid::Uuid::new_v4().to_string()`: a fresh random identifier. It is
/// random, so nothing is promised of its value.
#[verifier::external_body]
pub(crate) fn new_id() -> String {
    uuid::Uuid::new_v4().to_string()
}

/// A kept line of a reply: its section's index, its trimmed text, its
/// character's name, its instructions and its pause.
pub type KeptLine = (nat, Seq<char>, Option<Seq<char>>, Option<Seq<char>>, Option<u32>);

/// The lines of section `i` that are kept: those whose text is not blank.
pub open spec fn kept_in(i: nat, lines: Seq<LlmScriptLine>) -> Seq<KeptLine>
    decreases lines.len(),
{
    if lines.len() == 0 {
        seq![]
    } else {
        let prev = kept_in(i, lines.drop_last());
        let l = lines.last();
        let t = trim(l.text@);
        if t.len() > 0 {
            prev.push((i, t, crate::dashscope::opt_view(l.character), crate::dashscope::opt_view(l.instructions), l.gap_ms))
        } else {
            prev
        }
    }
}

/// The kept lines of all sections, in order.
pub open spec fn kept_lines(secs: Seq<LlmSection>) -> Seq<KeptLine>
    decreases secs.len(),
{
    if secs.len() == 0 {
        seq![]
    } else {
        kept_lines(secs.drop_last()) + kept_in((secs.len() - 1) as nat, secs.last().lines@)
    }
}

/// Section `i` of a script made from a reply.
pub open spec fn section_ok(sec: ScriptSection, i: int, src: LlmSection, project_id: Seq<char>) -> bool {
    sec.project_id@ == project_id && sec.title@ == src.title@ && sec.section_order == i as i32
}

/// Line `k` of a script made from a reply, kept as `kl`.
pub open spec fn line_ok(line: ScriptLine, k: int, kl: KeptLine, project_id: Seq<char>, chars: Seq<Character>, sections: Seq<ScriptSection>) -> bool {
    &&& line.project_id@ == project_id
    &&& line.line_order == k as i32
    &&& line.text@ == kl.1
    &&& crate::dashscope::opt_view(line.character_id) == resolved_character(kl.2, chars)
    &&& line.gap_after_ms == (match kl.4 {
        Some(g) => g,
        None => 500u32,
    }) as i32
    &&& line.instructions@ == crate::dashscope::or_empty(kl.3)
    &&& crate::dashscope::opt_view(line.section_id) == Some(sections[kl.0 as int].id@)
}

/// The sections and lines of a generated script: one section per section
/// of the reply (fresh id, its title, its index as order), and one line per
/// line whose text is not blank (fresh id, trimmed text, its index among
/// the kept lines as order, the id of its character by name, its pause or
/// 500 ms, its instructions or none, and its section's id).
pub fn build_script(project_id: &str, resp: &LlmScriptResponse, characters: &[Character]) -> (r: (Vec<ScriptSection>, Vec<ScriptLine>))
    ensures
        r.0@.len() == resp.sections@.len(),
        forall|i: int| 0 <= i < r.0@.len() ==> section_ok(#[trigger] r.0@[i], i, resp.sections@[i], project_id@),
        r.1@.len() == kept_lines(resp.sections@).len(),
        forall|k: int| 0 <= k < r.1@.len() ==> line_ok(#[trigger] r.1@[k], k, kept_lines(resp.sections@)[k], project_id@, characters@, r.0@),
{
    let mut sections: Vec<ScriptSection> = Vec::new();
    let mut lines: Vec<ScriptLine> = Vec::new();
    let mut i: usize = 0;
    while i < resp.sections.len()
        invariant
            i <= resp.sections@.len(),
            sections@.len() == i,
            forall|j: int| 0 <= j < i ==> section_ok(#[trigger] sections@[j], j, resp.sections@[j], project_id@),
            lines@.len() == kept_lines(resp.sections@.take(i as int)).len(),
            forall|k: int| 0 <= k < lines@.len() ==> line_ok(#[trigger] lines@[k], k, kept_lines(resp.sections@.take(i as int))[k], project_id@, characters@, sections@),
            forall|k: int| 0 <= k < lines@.len() ==> kept_lines(resp.sections@.take(i as int))[k].0 < i,
        decreases resp.sections@.len() - i,
    {
        let section = &resp.sections[i];
        let section_id = new_id();
        let ghost secs0 = sections@;
        sections.push(ScriptSection {
            id: section_id.clone(),
            project_id: owned(project_id),
            title: section.title.clone(),
            section_order: i as i32,
        });
        let ghost base = kept_lines(resp.sections@.take(i as int));
        proof {
            assert(resp.sections@.take(i + 1).drop_last() =~= resp.sections@.take(i as int));
            assert(resp.sections@.take(i + 1).last() == resp.sections@[i as int]);
            assert forall|k: int| 0 <= k < lines@.len() implies line_ok(#[trigger] lines@[k], k, base[k], project_id@, characters@, sections@) by {
                assert(sections@[base[k].0 as int] == secs0[base[k].0 as int]);
            }
        }
        let mut j: usize = 0;
        while j < section.lines.len()
            invariant
                i < resp.sections@.len(),
                section == resp.sections@[i as int],
                j <= section.lines@.len(),
                sections@.len() == i + 1,
                sections@[i as int].id@ == section_id@,
                base == kept_lines(resp.sections@.take(i as int)),
                forall|k: int| 0 <= k < base.len() ==> base[k].0 < i,
                lines@.len() == base.len() + kept_in(i as nat, section.lines@.take(j as int)).len(),
                forall|k: int| 0 <= k < lines@.len() ==> line_ok(#[trigger] lines@[k], k, (base + kept_in(i as nat, section.lines@.take(j as int)))[k], project_id@, characters@, sections@),
                forall|k: int| 0 <= k < kept_in(i as nat, section.lines@.take(j as int)).len() ==> (#[trigger] kept_in(i as nat, section.lines@.take(j as int))[k]).0 == i,
            decreases section.lines@.len() - j,
        {
            let line = &section.lines[j];
            let ghost kept_before = kept_in(i as nat, section.lines@.take(j as int));
            proof {
                assert(section.lines@.take(j + 1).drop_last() =~= section.lines@.take(j as int));
                assert(section.lines@.take(j + 1).last() == section.lines@[j as int]);
            }
            let t = trim_chars(line.text.as_str());
            if t.len() > 0 {
                let ghost lines0 = lines@;
                let order = lines.len() as i32;
                let text = string_from_chars(&t, 0, t.len());
                assert(t@.subrange(0, t@.len() as int) =~= t@);
                let gap: u32 = match line.gap_ms {
                    Some(g) => g,
                    None => 500,
                };
                let instructions = match &line.instructions {
                    Some(s) => s.clone(),
                    None => String::new(),
                };
                let new_line = ScriptLine {
                    id: new_id(),
                    project_id: owned(project_id),
                    line_order: order,
                    text,
                    character_id: resolve_character(&line.character, characters),
                    gap_after_ms: gap as i32,
                    instructions,
                    section_id: Some(section_id.clone()),
                };
                lines.push(new_line);
                proof {
                    let kl: KeptLine = (i as nat, t@, crate::dashscope::opt_view(line.character), crate::dashscope::opt_view(line.instructions), line.gap_ms);
                    let kept_after = kept_in(i as nat, section.lines@.take(j + 1));
                    assert(kept_after == kept_before.push(kl));
                    assert(base + kept_after =~= (base + kept_before).push(kl));
                    assert forall|k: int| 0 <= k < lines@.len() implies line_ok(#[trigger] lines@[k], k, (base + kept_after)[k], project_id@, characters@, sections@) by {
                        if k < lines0.len() {
                            assert(lines@[k] == lines0[k]);
                            assert((base + kept_after)[k] == (base + kept_before)[k]);
                        }
                    }
                    assert forall|k: int| 0 <= k < kept_after.len() implies (#[trigger] kept_after[k]).0 == i by {
                        if k < kept_before.len() {
                            assert(kept_after[k] == kept_before[k]);
                        }
                    }
                }
            } else {
                proof {
                    assert(kept_in(i as nat, section.lines@.take(j + 1)) == kept_before);
                }
            }
            j = j + 1;
        }
        proof {
            assert(section.lines@.take(j as int) =~= section.lines@);
            let next = kept_lines(resp.sections@.take(i + 1));
            assert(next == base + kept_in(i as nat, section.lines@));
            assert forall|k: int| 0 <= k < next.len() implies (#[trigger] next[k]).0 < i + 1 by {
                if k < base.len() {
                    assert(next[k] == base[k]);
                } else {
                    assert(next[k] == kept_in(i as nat, section.lines@)[k - base.len()]);
                }
            }
        }
        i = i + 1;
    }
    proof {
        assert(resp.sections@.take(i as int) =~= resp.sections@);
    }
    (sections, lines)
}

} // verus!
