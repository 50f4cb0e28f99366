//! The instructions given to the language model: the system prompts of the
//! writing agent, of script generation and of outline analysis, and the
//! text of a revision request.

use vstd::prelude::*;
use crate::agent::{AgentPlan, ChapterPlan, RevisionRequest};
use crate::fmt::{decimal, push_decimal};
use crate::models::Character;
use crate::text::{append_str, join, join_strings, owned, trim, trim_chars, views};

verus! {

broadcast use vstd::string::group_string_axioms;

// ---------------------------------------------------------------------------
// Pieces shared by the prompts
// ---------------------------------------------------------------------------

/// The names of `chars`, in order.
pub open spec fn names(chars: Seq<Character>) -> Seq<Seq<char>> {
    chars.map_values(|c: Character| c.name@)
}

/// The names of `chars`, in order.
pub fn character_names(chars: &[Character]) -> (r: Vec<String>)
    ensures
        views(r@) == names(chars@),
{
    let mut r: Vec<String> = Vec::new();
    let mut i: usize = 0;
    while i < chars.len()
        invariant
            i <= chars@.len(),
            views(r@) == names(chars@.take(i as int)),
        decreases chars@.len() - i,
    {
        let ghost before = r@;
        r.push(chars[i].name.clone());
        proof {
            crate::text::lemma_views_push(before, r@.last());
            assert(names(chars@.take(i + 1)) =~= names(chars@.take(i as int)).push(chars@[i as int].name@));
        }
        i = i + 1;
    }
    assert(chars@.take(chars@.len() as int) =~= chars@);
    r
}

/// The estimated line total of a plan.
pub open spec fn total_lines(chs: Seq<ChapterPlan>) -> nat
    decreases chs.len(),
{
    if chs.len() == 0 {
        0
    } else {
        total_lines(chs.drop_last()) + chs.last().estimated_lines as nat
    }
}

/// The estimated line total of a plan, when it fits the `u32` it is
/// counted in.
pub fn plan_total_lines(chs: &[ChapterPlan]) -> (r: u32)
    requires
        total_lines(chs@) <= u32::MAX,
    ensures
        r == total_lines(chs@),
{
    let mut t: u32 = 0;
    let mut i: usize = 0;
    while i < chs.len()
        invariant
            i <= chs@.len(),
            t == total_lines(chs@.take(i as int)),
            total_lines(chs@) <= u32::MAX,
        decreases chs@.len() - i,
    {
        proof {
            assert(chs@.take(i + 1).drop_last() =~= chs@.take(i as int));
            lemma_total_lines_prefix(chs@, i + 1);
        }
        t = t + chs[i].estimated_lines;
        i = i + 1;
    }
    assert(chs@.take(i as int) =~= chs@);
    t
}

proof fn lemma_total_lines_prefix(chs: Seq<ChapterPlan>, k: int)
    requires
        0 <= k <= chs.len(),
    ensures
        total_lines(chs.take(k)) <= total_lines(chs),
    decreases chs.len() - k,
{
    if k < chs.len() {
        lemma_total_lines_prefix(chs, k + 1);
        assert(chs.take(k + 1).drop_last() =~= chs.take(k));
    } else {
        assert(chs.take(k) =~= chs);
    }
}

/// The characters of a chapter as the prompts list them.
pub open spec fn chapter_characters(ch: ChapterPlan) -> Seq<char> {
    if ch.characters@.len() == 0 {
        "unspecified"@
    } else {
        join(views(ch.characters@), ", "@)
    }
}

/// A chapter of a plan as the prompts describe it.
pub open spec fn chapter_line(ch: ChapterPlan) -> Seq<char> {
    "- \""@ + ch.title@ + "\" ~"@ + decimal(ch.estimated_lines as nat) + " lines, mood: "@ + ch.mood@
        + ", characters: "@ + chapter_characters(ch)
}

/// A chapter as the script-generation tool describes it.
pub open spec fn chapter_line_brief(ch: ChapterPlan) -> Seq<char> {
    "- \""@ + ch.title@ + "\" (~"@ + decimal(ch.estimated_lines as nat) + " lines, mood: "@ + ch.mood@
        + ")"@
}

/// The descriptions of the chapters of a plan, one per line.
pub open spec fn chapter_lines(chs: Seq<ChapterPlan>) -> Seq<Seq<char>> {
    chs.map_values(|ch: ChapterPlan| chapter_line(ch))
}

/// The brief descriptions of the chapters of a plan.
pub open spec fn chapter_lines_brief(chs: Seq<ChapterPlan>) -> Seq<Seq<char>> {
    chs.map_values(|ch: ChapterPlan| chapter_line_brief(ch))
}

fn describe_chapter(ch: &ChapterPlan, brief: bool) -> (r: String)
    ensures
        r@ == (if brief { chapter_line_brief(*ch) } else { chapter_line(*ch) }),
{
    let mut r = owned("- \"");
    append_str(&mut r, ch.title.as_str());
    if brief {
        append_str(&mut r, "\" (~");
    } else {
        append_str(&mut r, "\" ~");
    }
    push_decimal(&mut r, ch.estimated_lines as u128);
    append_str(&mut r, " lines, mood: ");
    append_str(&mut r, ch.mood.as_str());
    if brief {
        append_str(&mut r, ")");
    } else {
        append_str(&mut r, ", characters: ");
        if ch.characters.len() == 0 {
            append_str(&mut r, "unspecified");
        } else {
            let cs = join_strings(ch.characters.as_slice(), ", ");
            append_str(&mut r, cs.as_str());
        }
    }
    r
}

/// The chapter descriptions of a plan, joined by newlines.
fn describe_chapters(chs: &[ChapterPlan], brief: bool) -> (r: String)
    ensures
        r@ == join(if brief { chapter_lines_brief(chs@) } else { chapter_lines(chs@) }, "\n"@),
{
    let mut descs: Vec<String> = Vec::new();
    let mut i: usize = 0;
    let ghost lines = if brief { chapter_lines_brief(chs@) } else { chapter_lines(chs@) };
    while i < chs.len()
        invariant
            i <= chs@.len(),
            lines == (if brief { chapter_lines_brief(chs@) } else { chapter_lines(chs@) }),
            lines.len() == chs@.len(),
            views(descs@) == lines.take(i as int),
        decreases chs@.len() - i,
    {
        let ghost before = descs@;
        descs.push(describe_chapter(&chs[i], brief));
        proof {
            crate::text::lemma_views_push(before, descs@.last());
            assert(lines.take(i + 1) =~= lines.take(i as int).push(lines[i as int]));
        }
        i = i + 1;
    }
    assert(lines.take(i as int) =~= lines);
    join_strings(descs.as_slice(), "\n")
}

/// `lead`, `label`, the instructions and a newline, when instructions are
/// given and not blank; nothing otherwise.
pub open spec fn extra_block(extra: Option<Seq<char>>, lead: Seq<char>, label: Seq<char>) -> Seq<char> {
    match extra {
        Some(s) => if trim(s).len() > 0 {
            lead + label + s + "\n"@
        } else {
            Seq::<char>::empty()
        },
        None => Seq::<char>::empty(),
    }
}

fn push_extra(r: &mut String, extra: Option<&str>, lead: &str, label: &str)
    ensures
        final(r)@ == old(r)@ + extra_block(
            match extra {
                Some(s) => Some(s@),
                None => None,
            },
            lead@,
            label@,
        ),
{
    match extra {
        Some(s) => {
            if trim_chars(s).len() > 0 {
                append_str(r, lead);
                append_str(r, label);
                append_str(r, s);
                append_str(r, "\n");
            } else {
                assert(old(r)@ + Seq::<char>::empty() =~= old(r)@);
            }
        },
        None => {
            assert(old(r)@ + Seq::<char>::empty() =~= old(r)@);
        },
    }
}

/// The optional text as plain characters.
pub open spec fn opt_text(o: Option<&str>) -> Option<Seq<char>> {
    match o {
        Some(s) => Some(s@),
        None => None,
    }
}

// ---------------------------------------------------------------------------
// The writing agent
// ---------------------------------------------------------------------------

/// The characters line of the agent's prompt.
pub open spec fn agent_char_list(chars: Seq<Character>) -> Seq<char> {
    if chars.len() == 0 {
        "(No characters defined yet — use character names freely)"@
    } else {
        "Available characters: "@ + join(names(chars), ", "@)
    }
}

/// The confirmed plan as the agent's prompt gives it.
pub open spec fn agent_plan_context(plan: Option<AgentPlan>) -> Seq<char> {
    match plan {
        Some(p) => "Confirmed plan:\n"@ + join(chapter_lines(p.chapters@), "\n"@)
            + "\n\nTotal estimated lines: "@ + decimal(total_lines(p.chapters@)),
        None => Seq::<char>::empty(),
    }
}

/// The system prompt of the writing agent: its role and language rule, the
/// characters, the confirmed plan, the user's further instructions, and its
/// tools and workflow.
pub open spec fn agent_prompt_text(chars: Seq<Character>, plan: Option<AgentPlan>, extra: Option<Seq<char>>) -> Seq<char> {
    "You are an expert audiobook production agent. Your job is to take a user's outline and produce a complete audiobook script.\n\nCRITICAL: You MUST detect the language of the user's outline and work entirely in that language.\n\nAVAILABLE CHARACTERS:\n"@ + agent_char_list(chars) + "\n\n"@ + agent_plan_context(plan) + "\n\n"@
        + extra_block(extra, ""@, "ADDITIONAL INSTRUCTIONS: "@) + "You have tools available to help you:\n- outline_analysis: Analyze the outline and create a structured plan\n- character_extraction: Extract characters from text\n- script_generation: Generate the complete script and save it\n- story_recall: Search the story knowledge base for relevant plot/character info (semantic search)\n- story_memory: Store or list important story facts, relationships, and worldbuilding\n\nIMPORTANT: For long-form writing, ALWAYS use story_recall before writing to recall established facts,and use story_memory to record new plot points or character developments as you write.\n\nFollow this workflow:\n1. If no plan exists yet, use outline_analysis first\n2. Then use script_generation to create and save the script\nAlways use the tools in order. Do NOT skip steps."@
}

/// The plan's line total fits the `u32` it is counted in.
pub open spec fn plan_fits(plan: Option<&AgentPlan>) -> bool {
    match plan {
        Some(p) => total_lines(p.chapters@) <= u32::MAX,
        None => true,
    }
}

/// Builds the writing agent's system prompt; see [`agent_prompt_text`].
pub fn build_agent_system_prompt(characters: &[Character], agent_plan: Option<&AgentPlan>, extra_instructions: Option<&str>) -> (r: String)
    requires
        plan_fits(agent_plan),
    ensures
        r@ == agent_prompt_text(
            characters@,
            match agent_plan {
                Some(p) => Some(*p),
                None => None,
            },
            opt_text(extra_instructions),
        ),
{
    proof {
        reveal_strlit("");
    }
    let mut r = owned("You are an expert audiobook production agent. Your job is to take a user's outline and produce a complete audiobook script.\n\nCRITICAL: You MUST detect the language of the user's outline and work entirely in that language.\n\nAVAILABLE CHARACTERS:\n");
    if characters.len() == 0 {
        append_str(&mut r, "(No characters defined yet — use character names freely)");
    } else {
        append_str(&mut r, "Available characters: ");
        let names = character_names(characters);
        let joined = join_strings(names.as_slice(), ", ");
        append_str(&mut r, joined.as_str());
    }
    append_str(&mut r, "\n\n");
    match agent_plan {
        Some(p) => {
            append_str(&mut r, "Confirmed plan:\n");
            let descs = describe_chapters(p.chapters.as_slice(), false);
            append_str(&mut r, descs.as_str());
            append_str(&mut r, "\n\nTotal estimated lines: ");
            let total = plan_total_lines(p.chapters.as_slice());
            push_decimal(&mut r, total as u128);
        },
        None => {},
    }
    append_str(&mut r, "\n\n");
    push_extra(&mut r, extra_instructions, "", "ADDITIONAL INSTRUCTIONS: ");
    append_str(&mut r, "You have tools available to help you:\n- outline_analysis: Analyze the outline and create a structured plan\n- character_extraction: Extract characters from text\n- script_generation: Generate the complete script and save it\n- story_recall: Search the story knowledge base for relevant plot/character info (semantic search)\n- story_memory: Store or list important story facts, relationships, and worldbuilding\n\nIMPORTANT: For long-form writing, ALWAYS use story_recall before writing to recall established facts,and use story_memory to record new plot points or character developments as you write.\n\nFollow this workflow:\n1. If no plan exists yet, use outline_analysis first\n2. Then use script_generation to create and save the script\nAlways use the tools in order. Do NOT skip steps.");
    r
}

/// A section index as `{:?}` writes a list of them: `[1, 2]`.
pub open spec fn index_list(ix: Seq<usize>) -> Seq<char> {
    "["@ + join(ix.map_values(|i: usize| decimal(i as nat)), ", "@) + "]"@
}

/// The titles of the plan's chapters at the given indices (out-of-range
/// ones skipped), each as `- "<title>"`.
pub open spec fn section_hints(ix: Seq<usize>, chs: Seq<ChapterPlan>) -> Seq<Seq<char>>
    decreases ix.len(),
{
    if ix.len() == 0 {
        seq![]
    } else {
        let prev = section_hints(ix.drop_last(), chs);
        let i = ix.last() as int;
        if i < chs.len() {
            prev.push("- \""@ + chs[i].title@ + "\""@)
        } else {
            prev
        }
    }
}

/// Which sections a revision names: their titles when a plan is at hand,
/// else their indices; nothing when it names none.
pub open spec fn revision_hint(indices: Option<Seq<usize>>, plan: Option<AgentPlan>) -> Seq<char> {
    match indices {
        Some(ix) => match plan {
            Some(p) => "\nRevise these sections:\n"@ + join(section_hints(ix, p.chapters@), "\n"@) + "\n"@,
            None => "\nRevise sections at indices: "@ + index_list(ix) + "\n"@,
        },
        None => Seq::<char>::empty(),
    }
}

/// The instructions that turn script generation into a revision.
pub open spec fn revision_text(instructions: Seq<char>, indices: Option<Seq<usize>>, plan: Option<AgentPlan>) -> Seq<char> {
    "REVISION REQUEST: "@ + instructions + "\n"@ + revision_hint(indices, plan)
        + "Only modify the requested sections. Keep everything else unchanged."@
}

/// Builds the instructions of a revision; see [`revision_text`].
pub fn revision_instructions(revision: &RevisionRequest, existing_plan: Option<&AgentPlan>) -> (r: String)
    ensures
        r@ == revision_text(
            revision.instructions@,
            match revision.section_indices {
                Some(v) => Some(v@),
                None => None,
            },
            match existing_plan {
                Some(p) => Some(*p),
                None => None,
            },
        ),
{
    let mut r = owned("REVISION REQUEST: ");
    append_str(&mut r, revision.instructions.as_str());
    append_str(&mut r, "\n");
    match &revision.section_indices {
        Some(ix) => match existing_plan {
            Some(p) => {
                let mut hints: Vec<String> = Vec::new();
                let mut k: usize = 0;
                while k < ix.len()
                    invariant
                        k <= ix@.len(),
                        views(hints@) == section_hints(ix@.take(k as int), p.chapters@),
                    decreases ix@.len() - k,
                {
                    proof {
                        assert(ix@.take(k + 1).drop_last() =~= ix@.take(k as int));
                        assert(ix@.take(k + 1).last() == ix@[k as int]);
                    }
                    let i = ix[k];
                    if i < p.chapters.len() {
                        let mut h = owned("- \"");
                        append_str(&mut h, p.chapters[i].title.as_str());
                        append_str(&mut h, "\"");
                        let ghost before = hints@;
                        hints.push(h);
                        proof {
                            crate::text::lemma_views_push(before, hints@.last());
                        }
                    }
                    k = k + 1;
                }
                assert(ix@.take(k as int) =~= ix@);
                append_str(&mut r, "\nRevise these sections:\n");
                let joined = join_strings(hints.as_slice(), "\n");
                append_str(&mut r, joined.as_str());
                append_str(&mut r, "\n");
            },
            None => {
                append_str(&mut r, "\nRevise sections at indices: ");
                append_str(&mut r, "[");
                let mut nums: Vec<String> = Vec::new();
                let mut k: usize = 0;
                while k < ix.len()
                    invariant
                        k <= ix@.len(),
                        views(nums@) == ix@.take(k as int).map_values(|i: usize| decimal(i as nat)),
                    decreases ix@.len() - k,
                {
                    let ghost before = nums@;
                    nums.push(crate::fmt::decimal_text(ix[k] as u128));
                    proof {
                        crate::text::lemma_views_push(before, nums@.last());
                        assert(ix@.take(k + 1).map_values(|i: usize| decimal(i as nat)) =~= ix@.take(
                            k as int,
                        ).map_values(|i: usize| decimal(i as nat)).push(decimal(ix@[k as int] as nat)));
                    }
                    k = k + 1;
                }
                assert(ix@.take(k as int) =~= ix@);
                let joined = join_strings(nums.as_slice(), ", ");
                append_str(&mut r, joined.as_str());
                append_str(&mut r, "]");
                append_str(&mut r, "\n");
            },
        },
        None => {},
    }
    append_str(&mut r, "Only modify the requested sections. Keep everything else unchanged.");
    r
}

// ---------------------------------------------------------------------------
// Script generation
// ---------------------------------------------------------------------------

/// The characters line of the script prompt.
pub open spec fn script_char_list(chars: Seq<Character>) -> Seq<char> {
    if chars.len() == 0 {
        "(No characters defined yet — use character names freely, the system will create them automatically)"@
    } else {
        "Available characters: "@ + join(names(chars), ", "@)
    }
}

/// The plan as the script prompt gives it.
pub open spec fn script_chapter_info(plan: Option<AgentPlan>) -> Seq<char> {
    match plan {
        Some(p) => "CHAPTER PLAN (reference — adapt freely based on story needs):\n"@ + join(chapter_lines(p.chapters@), "\n"@) + "\nTotal estimated lines: "@
            + decimal(total_lines(p.chapters@)) + "\nIMPORTANT: Generate AT LEAST this many lines total. Each chapter should have rich, detailed dialogue. Do NOT cut short or summarize — fully develop every scene with natural conversation flow."@,
        None => Seq::<char>::empty(),
    }
}

/// The system prompt of script generation: the writer's role and language
/// rule, the user's further instructions, the characters, the plan for
/// reference, and the JSON output format with its rules.
pub open spec fn script_prompt_text(chars: Seq<Character>, plan: Option<AgentPlan>, extra: Option<Seq<char>>) -> Seq<char> {
    "You are an audiobook script writer. Generate a complete, detailed audiobook script from the user's outline.\n\nCRITICAL LANGUAGE RULE: You MUST detect the language of the user's outline and write ALL dialogue/content in that SAME language. If the outline is in English, write English dialogue. If in Chinese, write Chinese dialogue. Only the JSON keys remain in English.\n\n"@ + extra_block(extra, ""@, "ADDITIONAL USER INSTRUCTIONS: "@) + script_char_list(chars)
        + "\n\n"@ + script_chapter_info(plan) + "\n\nOUTPUT FORMAT — return ONLY valid JSON (no markdown fences, no extra text):\n{\"sections\":[{\"title\":\"Section Title\",\"lines\":[{\"text\":\"dialogue content\",\"character\":\"character name\",\"instructions\":\"emotion/pace direction or null\",\"gap_ms\":500},...]},...]}\n\nRULES:\n1. \"character\" is REQUIRED for every line — assign a character to each line\n2. \"instructions\" describes voice direction (emotion, pace, tone). Use null if unsure\n3. \"gap_ms\" is pause duration in ms after the line (500-2000, default 500)\n4. Each line must be a complete, meaningful sentence that advances the story\n5. DO NOT use ellipsis (\"...\"/\"……\") as filler or padding\n6. DO NOT use placeholders like \"(omitted)\" or \"(continues)\"\n7. DO NOT summarize or abbreviate — write out every line of dialogue fully\n8. Generate RICH, DETAILED scripts — aim for at least 15-30 lines per section\n9. Develop each scene thoroughly: include greetings, reactions, transitions, emotional beats\n10. If the outline describes a long story, generate proportionally more content\n11. Organize into 3-5 sections (e.g. \"Intro\", \"Act 1\", \"Act 2\", \"Climax\", \"Outro\" or localized equivalents)"@
}

/// Builds the script generation prompt; see [`script_prompt_text`].
pub fn build_script_prompt(characters: &[Character], agent_plan: Option<&AgentPlan>, extra_instructions: Option<&str>) -> (r: String)
    requires
        plan_fits(agent_plan),
    ensures
        r@ == script_prompt_text(
            characters@,
            match agent_plan {
                Some(p) => Some(*p),
                None => None,
            },
            opt_text(extra_instructions),
        ),
{
    proof {
        reveal_strlit("");
    }
    let mut r = owned("You are an audiobook script writer. Generate a complete, detailed audiobook script from the user's outline.\n\nCRITICAL LANGUAGE RULE: You MUST detect the language of the user's outline and write ALL dialogue/content in that SAME language. If the outline is in English, write English dialogue. If in Chinese, write Chinese dialogue. Only the JSON keys remain in English.\n\n");
    push_extra(&mut r, extra_instructions, "", "ADDITIONAL USER INSTRUCTIONS: ");
    if characters.len() == 0 {
        append_str(&mut r, "(No characters defined yet — use character names freely, the system will create them automatically)");
    } else {
        append_str(&mut r, "Available characters: ");
        let names = character_names(characters);
        let joined = join_strings(names.as_slice(), ", ");
        append_str(&mut r, joined.as_str());
    }
    append_str(&mut r, "\n\n");
    match agent_plan {
        Some(p) => {
            append_str(&mut r, "CHAPTER PLAN (reference — adapt freely based on story needs):\n");
            let descs = describe_chapters(p.chapters.as_slice(), false);
            append_str(&mut r, descs.as_str());
            append_str(&mut r, "\nTotal estimated lines: ");
            let total = plan_total_lines(p.chapters.as_slice());
            push_decimal(&mut r, total as u128);
            append_str(&mut r, "\nIMPORTANT: Generate AT LEAST this many lines total. Each chapter should have rich, detailed dialogue. Do NOT cut short or summarize — fully develop every scene with natural conversation flow.");
        },
        None => {},
    }
    append_str(&mut r, "\n\nOUTPUT FORMAT — return ONLY valid JSON (no markdown fences, no extra text):\n{\"sections\":[{\"title\":\"Section Title\",\"lines\":[{\"text\":\"dialogue content\",\"character\":\"character name\",\"instructions\":\"emotion/pace direction or null\",\"gap_ms\":500},...]},...]}\n\nRULES:\n1. \"character\" is REQUIRED for every line — assign a character to each line\n2. \"instructions\" describes voice direction (emotion, pace, tone). Use null if unsure\n3. \"gap_ms\" is pause duration in ms after the line (500-2000, default 500)\n4. Each line must be a complete, meaningful sentence that advances the story\n5. DO NOT use ellipsis (\"...\"/\"……\") as filler or padding\n6. DO NOT use placeholders like \"(omitted)\" or \"(continues)\"\n7. DO NOT summarize or abbreviate — write out every line of dialogue fully\n8. Generate RICH, DETAILED scripts — aim for at least 15-30 lines per section\n9. Develop each scene thoroughly: include greetings, reactions, transitions, emotional beats\n10. If the outline describes a long story, generate proportionally more content\n11. Organize into 3-5 sections (e.g. \"Intro\", \"Act 1\", \"Act 2\", \"Climax\", \"Outro\" or localized equivalents)");
    r
}

/// The characters block of the script generation tool's prompt.
pub open spec fn tool_chars_section(chars: Seq<Character>) -> Seq<char> {
    if chars.len() == 0 {
        Seq::<char>::empty()
    } else {
        "\nAvailable characters: "@ + join(names(chars), ", "@) + "\n"@
    }
}

/// The plan block of the script generation tool's prompt.
pub open spec fn tool_plan_section(plan: Option<AgentPlan>) -> Seq<char> {
    match plan {
        Some(p) => "\nPlan:\n"@ + join(chapter_lines_brief(p.chapters@), "\n"@) + "\n"@,
        None => Seq::<char>::empty(),
    }
}

/// The system prompt of the agent's script generation tool.
pub open spec fn tool_script_prompt_text(chars: Seq<Character>, plan: Option<AgentPlan>, extra: Option<Seq<char>>) -> Seq<char> {
    "You are an expert audiobook script writer. Take the user's outline and generate a full script with dialogue.\n\nCRITICAL LANGUAGE RULE: You MUST detect the language of the user's outline and write the entire script in that SAME language.\n\nCRITICAL CHARACTER RULE: Only use characters from this list: "@ + tool_chars_section(chars) + "."@ + tool_plan_section(plan) + extra_block(
        extra,
        "\n"@,
        "Additional instructions: "@,
    ) + "Rules:\n1. Write natural, engaging dialogue for each character\n2. Include narrator lines when needed\n3. Use realistic character voices matching their personality\n4. Add appropriate gaps between lines for pacing\n5. Keep the script flowing and immersive\n\nReturn ONLY valid JSON (no markdown fences):\n{\"sections\":[{\"title\":\"Chapter 1\",\"lines\":[{\"text\":\"Dialogue here\",\"character\":\"Character Name\",\"gap_after_ms\":500}]},\"narration_style\":\"descriptive\"}"@
}

/// Builds the script generation tool's prompt; see
/// [`tool_script_prompt_text`].
pub fn build_tool_script_prompt(characters: &[Character], plan: Option<&AgentPlan>, extra_instructions: Option<&str>) -> (r: String)
    ensures
        r@ == tool_script_prompt_text(
            characters@,
            match plan {
                Some(p) => Some(*p),
                None => None,
            },
            opt_text(extra_instructions),
        ),
{
    proof {
        reveal_strlit("");
    }
    let mut r = owned("You are an expert audiobook script writer. Take the user's outline and generate a full script with dialogue.\n\nCRITICAL LANGUAGE RULE: You MUST detect the language of the user's outline and write the entire script in that SAME language.\n\nCRITICAL CHARACTER RULE: Only use characters from this list: ");
    if characters.len() > 0 {
        append_str(&mut r, "\nAvailable characters: ");
        let names = character_names(characters);
        let joined = join_strings(names.as_slice(), ", ");
        append_str(&mut r, joined.as_str());
        append_str(&mut r, "\n");
    }
    append_str(&mut r, ".");
    match plan {
        Some(p) => {
            append_str(&mut r, "\nPlan:\n");
            let descs = describe_chapters(p.chapters.as_slice(), true);
            append_str(&mut r, descs.as_str());
            append_str(&mut r, "\n");
        },
        None => {},
    }
    push_extra(&mut r, extra_instructions, "\n", "Additional instructions: ");
    append_str(&mut r, "Rules:\n1. Write natural, engaging dialogue for each character\n2. Include narrator lines when needed\n3. Use realistic character voices matching their personality\n4. Add appropriate gaps between lines for pacing\n5. Keep the script flowing and immersive\n\nReturn ONLY valid JSON (no markdown fences):\n{\"sections\":[{\"title\":\"Chapter 1\",\"lines\":[{\"text\":\"Dialogue here\",\"character\":\"Character Name\",\"gap_after_ms\":500}]},\"narration_style\":\"descriptive\"}");
    r
}

// ---------------------------------------------------------------------------
// Outline analysis and character extraction
// ---------------------------------------------------------------------------

/// The existing characters block of the outline analysis prompts.
pub open spec fn existing_chars_block(chars: Seq<Character>) -> Seq<char> {
    if chars.len() == 0 {
        Seq::<char>::empty()
    } else {
        "\nExisting project characters: "@ + join(names(chars), ", "@)
            + "\nTry to match suggested characters to these existing ones when possible.\n"@
    }
}

/// The system prompt of outline analysis, as the planning command sends
/// it (`agent_tool` false) or as the agent's analysis tool does.
pub open spec fn outline_prompt_text(chars: Seq<Character>, agent_tool: bool) -> Seq<char> {
    if agent_tool {
        "You are an audiobook script planning assistant. Analyze the user's outline and return a structured plan.\n\nCRITICAL LANGUAGE RULE: You MUST detect the language of the user's outline and respond entirely in that SAME language. If the outline is in English, respond entirely in English. If in Chinese, respond entirely in Chinese. Match the user's language exactly.\n\n"@ + existing_chars_block(chars) + "Requirements:\n1. Identify chapters/scenes, estimate line count per chapter (be generous — aim for 15-30+ lines per chapter for rich dialogue), list involved characters, describe mood\n2. Extract all characters with their roles (protagonist, antagonist, narrator, etc.)\n3. Check if characters match existing project characters\n4. Summarize overall style\n5. Provide character configuration notes\n\nReturn ONLY valid JSON (no markdown fences):\n{\"chapters\":[{\"title\":\"...\",\"estimated_lines\":20,\"characters\":[\"...\"],\"mood\":\"...\"}],\"suggested_characters\":[{\"name\":\"...\",\"role\":\"...\",\"matched_existing\":false,\"existing_id\":null}],\"overall_style\":\"...\",\"character_notes\":\"...\"}"@
    } else {
        "You are an audiobook script planning assistant. Analyze the user's outline and return a structured plan.\n\nCRITICAL LANGUAGE RULE: You MUST detect the language of the user's outline and respond entirely in that SAME language. If the outline is in English, ALL content (titles, descriptions, notes) must be in English. If the outline is in Chinese, respond in Chinese. Match the user's language exactly.\n\n"@ + existing_chars_block(chars) + "Requirements:\n1. Identify chapters/scenes, estimate line count per chapter (be generous — aim for 15-30+ lines per chapter for rich dialogue), list involved characters, describe mood\n2. Extract all characters with their roles (protagonist, antagonist, narrator, etc.)\n3. Check if characters match existing project characters\n4. Summarize overall style\n5. Provide character configuration notes\n\nReturn ONLY valid JSON (no markdown fences):\n{\"chapters\":[{\"title\":\"...\",\"estimated_lines\":20,\"characters\":[\"...\"],\"mood\":\"...\"}],\"suggested_characters\":[{\"name\":\"...\",\"role\":\"...\",\"matched_existing\":false,\"existing_id\":null}],\"overall_style\":\"...\",\"character_notes\":\"...\"}"@
    }
}

/// Builds the outline analysis prompt; see [`outline_prompt_text`].
pub fn build_outline_prompt(characters: &[Character], agent_tool: bool) -> (r: String)
    ensures
        r@ == outline_prompt_text(characters@, agent_tool),
{
    let mut r = if agent_tool {
        owned("You are an audiobook script planning assistant. Analyze the user's outline and return a structured plan.\n\nCRITICAL LANGUAGE RULE: You MUST detect the language of the user's outline and respond entirely in that SAME language. If the outline is in English, respond entirely in English. If in Chinese, respond entirely in Chinese. Match the user's language exactly.\n\n")
    } else {
        owned("You are an audiobook script planning assistant. Analyze the user's outline and return a structured plan.\n\nCRITICAL LANGUAGE RULE: You MUST detect the language of the user's outline and respond entirely in that SAME language. If the outline is in English, ALL content (titles, descriptions, notes) must be in English. If the outline is in Chinese, respond in Chinese. Match the user's language exactly.\n\n")
    };
    if characters.len() > 0 {
        append_str(&mut r, "\nExisting project characters: ");
        let names = character_names(characters);
        let joined = join_strings(names.as_slice(), ", ");
        append_str(&mut r, joined.as_str());
        append_str(&mut r, "\nTry to match suggested characters to these existing ones when possible.\n");
    }
    if agent_tool {
        append_str(&mut r, "Requirements:\n1. Identify chapters/scenes, estimate line count per chapter (be generous — aim for 15-30+ lines per chapter for rich dialogue), list involved characters, describe mood\n2. Extract all characters with their roles (protagonist, antagonist, narrator, etc.)\n3. Check if characters match existing project characters\n4. Summarize overall style\n5. Provide character configuration notes\n\nReturn ONLY valid JSON (no markdown fences):\n{\"chapters\":[{\"title\":\"...\",\"estimated_lines\":20,\"characters\":[\"...\"],\"mood\":\"...\"}],\"suggested_characters\":[{\"name\":\"...\",\"role\":\"...\",\"matched_existing\":false,\"existing_id\":null}],\"overall_style\":\"...\",\"character_notes\":\"...\"}");
    } else {
        append_str(&mut r, "Requirements:\n1. Identify chapters/scenes, estimate line count per chapter (be generous — aim for 15-30+ lines per chapter for rich dialogue), list involved characters, describe mood\n2. Extract all characters with their roles (protagonist, antagonist, narrator, etc.)\n3. Check if characters match existing project characters\n4. Summarize overall style\n5. Provide character configuration notes\n\nReturn ONLY valid JSON (no markdown fences):\n{\"chapters\":[{\"title\":\"...\",\"estimated_lines\":20,\"characters\":[\"...\"],\"mood\":\"...\"}],\"suggested_characters\":[{\"name\":\"...\",\"role\":\"...\",\"matched_existing\":false,\"existing_id\":null}],\"overall_style\":\"...\",\"character_notes\":\"...\"}");
    }
    r
}

/// The system prompt of character extraction.
pub fn character_extraction_prompt() -> (r: &'static str)
    ensures
        r@ == "You are a character extraction assistant. Analyze the provided text and extract ALL characters mentioned (named or implied).\n\nReturn ONLY valid JSON (no markdown fences):\n{\"characters\":[{\"name\":\"Character Name\",\"role\":\"protagonist/antagonist/narrator/supporting\",\"description\":\"Brief personality/role description\"}]}\n\nCRITICAL: Return characters in the SAME LANGUAGE as the input text."@,
{
    "You are a character extraction assistant. Analyze the provided text and extract ALL characters mentioned (named or implied).\n\nReturn ONLY valid JSON (no markdown fences):\n{\"characters\":[{\"name\":\"Character Name\",\"role\":\"protagonist/antagonist/narrator/supporting\",\"description\":\"Brief personality/role description\"}]}\n\nCRITICAL: Return characters in the SAME LANGUAGE as the input text."
}

} // verus!
