//! The writing agent's tools: their names and descriptions, the dispatch of
//! a call by name, what each tool reports back, the checks on a generated
//! script, and the story knowledge base actions.

use vstd::prelude::*;
use crate::error::AppError;
use crate::fmt::{decimal, push_decimal};
use crate::models::{Character, ScriptLine, ScriptSection, StoryKnowledgeItem};
use crate::text::{append_str, contains, contains_seq, join, join_strings, owned, str_eq, views};

verus! {

broadcast use vstd::string::group_string_axioms;

/// Analyses an outline into a plan.
#[derive(Clone, Debug, PartialEq)]
pub struct OutlineAnalysisTool;

/// Extracts the characters of a text.
#[derive(Clone, Debug, PartialEq)]
pub struct CharacterExtractionTool;

/// Writes and saves the script of an outline.
#[derive(Clone, Debug, PartialEq)]
pub struct ScriptGenerationTool;

/// Searches the story knowledge base.
#[derive(Clone, Debug, PartialEq)]
pub struct StoryRecallTool;

/// Stores, lists or deletes story facts.
#[derive(Clone, Debug, PartialEq)]
pub struct StoryMemoryTool;

impl OutlineAnalysisTool {
    pub fn name() -> (r: &'static str)
        ensures
            r@ == "outline_analysis"@,
    {
        "outline_analysis"
    }

    pub fn description() -> (r: &'static str)
        ensures
            r@ == "Analyze the user's outline and return a structured audiobook plan with chapters, characters, mood, and style."@,
    {
        "Analyze the user's outline and return a structured audiobook plan with chapters, characters, mood, and style."
    }
}

impl CharacterExtractionTool {
    pub fn name() -> (r: &'static str)
        ensures
            r@ == "character_extraction"@,
    {
        "character_extraction"
    }

    pub fn description() -> (r: &'static str)
        ensures
            r@ == "Extract all characters mentioned in a text segment. Returns a list of characters with their names, roles, and personality descriptions."@,
    {
        "Extract all characters mentioned in a text segment. Returns a list of characters with their names, roles, and personality descriptions."
    }
}

impl ScriptGenerationTool {
    pub fn name() -> (r: &'static str)
        ensures
            r@ == "script_generation"@,
    {
        "script_generation"
    }

    pub fn description() -> (r: &'static str)
        ensures
            r@ == "Generate the complete audiobook script from the outline. Creates sections with dialogue lines for each character. Saves to the project database."@,
    {
        "Generate the complete audiobook script from the outline. Creates sections with dialogue lines for each character. Saves to the project database."
    }
}

impl StoryRecallTool {
    pub fn name() -> (r: &'static str)
        ensures
            r@ == "story_recall"@,
    {
        "story_recall"
    }

    pub fn description() -> (r: &'static str)
        ensures
            r@ == "Search the story knowledge base for relevant plot points, character details, or settings. Use this to recall established facts before writing new content."@,
    {
        "Search the story knowledge base for relevant plot points, character details, or settings. Use this to recall established facts before writing new content."
    }
}

impl StoryMemoryTool {
    pub fn name() -> (r: &'static str)
        ensures
            r@ == "story_memory"@,
    {
        "story_memory"
    }

    pub fn description() -> (r: &'static str)
        ensures
            r@ == "Store or list important story facts, character relationships, foreshadowing, or worldbuilding details. Call this to remember key information for future writing sessions."@,
    {
        "Store or list important story facts, character relationships, foreshadowing, or worldbuilding details. Call this to remember key information for future writing sessions."
    }
}

// ---------------------------------------------------------------------------
// Dispatch
// ---------------------------------------------------------------------------

/// The tools the agent can call.
#[derive(Clone, Debug, PartialEq)]
pub enum ToolKind {
    OutlineAnalysis,
    CharacterExtraction,
    ScriptGeneration,
    StoryRecall,
    StoryMemory,
}

/// The tool a call names, if it names one.
pub open spec fn tool_named(name: Seq<char>) -> Option<ToolKind> {
    if name == "outline_analysis"@ {
        Some(ToolKind::OutlineAnalysis)
    } else if name == "character_extraction"@ {
        Some(ToolKind::CharacterExtraction)
    } else if name == "script_generation"@ {
        Some(ToolKind::ScriptGeneration)
    } else if name == "story_recall"@ {
        Some(ToolKind::StoryRecall)
    } else if name == "story_memory"@ {
        Some(ToolKind::StoryMemory)
    } else {
        None
    }
}

/// The tool a call names, or the error of an unknown tool.
pub fn dispatch_tool(name: &str) -> (r: Result<ToolKind, AppError>)
    ensures
        match tool_named(name@) {
            Some(k) => r == Ok::<ToolKind, AppError>(k),
            None => r matches Err(AppError::LlmService(m)) && m@ == "Unknown tool: "@ + name@,
        },
{
    if str_eq(name, "outline_analysis") {
        Ok(ToolKind::OutlineAnalysis)
    } else if str_eq(name, "character_extraction") {
        Ok(ToolKind::CharacterExtraction)
    } else if str_eq(name, "script_generation") {
        Ok(ToolKind::ScriptGeneration)
    } else if str_eq(name, "story_recall") {
        Ok(ToolKind::StoryRecall)
    } else if str_eq(name, "story_memory") {
        Ok(ToolKind::StoryMemory)
    } else {
        let mut m = owned("Unknown tool: ");
        append_str(&mut m, name);
        Err(AppError::LlmService(m))
    }
}

/// The error of a call whose arguments do not fit the tool.
pub fn invalid_args_error(tool: &str, detail: &str) -> (r: AppError)
    ensures
        r matches AppError::LlmService(m) && m@ == "Invalid "@ + tool@ + " args: "@ + detail@,
{
    let mut m = owned("Invalid ");
    append_str(&mut m, tool);
    append_str(&mut m, " args: ");
    append_str(&mut m, detail);
    AppError::LlmService(m)
}

/// What the outline analysis tool reports: the plan, as pretty JSON.
pub fn outline_tool_report(plan_json: &str) -> (r: String)
    ensures
        r@ == "Plan generated successfully:\n"@ + plan_json@,
{
    let mut r = owned("Plan generated successfully:\n");
    append_str(&mut r, plan_json);
    r
}

/// What the character extraction tool reports: the count and the
/// characters, as pretty JSON.
pub fn extraction_tool_report(count: usize, characters_json: &str) -> (r: String)
    ensures
        r@ == "Extracted "@ + decimal(count as nat) + " characters:\n"@ + characters_json@,
{
    let mut r = owned("Extracted ");
    push_decimal(&mut r, count as u128);
    append_str(&mut r, " characters:\n");
    append_str(&mut r, characters_json);
    r
}

/// What the script generation tool reports.
pub fn script_tool_report(project_id: &str) -> (r: String)
    ensures
        r@ == "Script generated and saved for project "@ + project_id@ + "."@,
{
    let mut r = owned("Script generated and saved for project ");
    append_str(&mut r, project_id);
    append_str(&mut r, ".");
    r
}

/// What the recall tool reports, given each result already written out.
pub open spec fn recall_report_text(results: Seq<Seq<char>>) -> Seq<char> {
    if results.len() == 0 {
        "No relevant knowledge found."@
    } else {
        "Found "@ + decimal(results.len()) + " results:\n\n"@ + join(results, "\n\n"@)
    }
}

/// Builds [`recall_report_text`].
pub fn recall_tool_report(results: &[String]) -> (r: String)
    ensures
        r@ == recall_report_text(views(results@)),
{
    if results.len() == 0 {
        return owned("No relevant knowledge found.");
    }
    let mut r = owned("Found ");
    push_decimal(&mut r, results.len() as u128);
    append_str(&mut r, " results:\n\n");
    let body = join_strings(results, "\n\n");
    append_str(&mut r, body.as_str());
    r
}

/// A tool's result as the conversation records it: its text, or `Error: `
/// and the error's text.
pub fn tool_result_content(result: &Result<String, AppError>) -> (r: String)
    ensures
        match result {
            Ok(s) => r@ == s@,
            Err(e) => r@ == "Error: "@ + crate::error::error_text(*e),
        },
{
    match result {
        Ok(s) => s.clone(),
        Err(e) => {
            let mut r = owned("Error: ");
            let m = e.message();
            append_str(&mut r, m.as_str());
            r
        },
    }
}


// ---------------------------------------------------------------------------
// Generated scripts
// ---------------------------------------------------------------------------

/// A character the extraction tool found.
#[derive(Clone, Debug, PartialEq)]
pub struct ExtractedCharacter {
    pub name: String,
    pub role: String,
    pub description: String,
}

/// A line of a script the generation tool wrote.
#[derive(Clone, Debug, PartialEq)]
pub struct GeneratedLine {
    pub text: String,
    pub character: String,
    pub gap_after_ms: i32,
}

/// A section of a script the generation tool wrote.
#[derive(Clone, Debug, PartialEq)]
pub struct GeneratedSection {
    pub title: String,
    pub lines: Vec<GeneratedLine>,
}

/// A whole script the generation tool wrote.
#[derive(Clone, Debug, PartialEq)]
pub struct ScriptGenerationResponse {
    pub sections: Vec<GeneratedSection>,
    pub narration_style: String,
}

/// Per-section figures of a generated script.
#[derive(Clone, Debug, PartialEq)]
pub struct SectionStat {
    pub title: String,
    pub line_count: usize,
    pub characters: Vec<String>,
}

/// The checks on a generated script.
#[derive(Clone, Debug, PartialEq)]
pub struct ScriptValidation {
    pub total_lines: usize,
    pub total_sections: usize,
    pub unmatched_characters: Vec<String>,
    pub section_stats: Vec<SectionStat>,
    pub warnings: Vec<String>,
}

/// `acc` with `x` added at the end unless it is there already.
pub open spec fn add_distinct(acc: Seq<Seq<char>>, x: Seq<char>) -> Seq<Seq<char>> {
    if acc.contains(x) {
        acc
    } else {
        acc.push(x)
    }
}

/// The distinct character names of `lines`, in order of first appearance,
/// after those in `acc`.
pub open spec fn distinct_speakers(acc: Seq<Seq<char>>, lines: Seq<GeneratedLine>) -> Seq<Seq<char>>
    decreases lines.len(),
{
    if lines.len() == 0 {
        acc
    } else {
        add_distinct(distinct_speakers(acc, lines.drop_last()), lines.last().character@)
    }
}

/// Some character of the project is named `n`.
pub open spec fn is_known(chars: Seq<Character>, n: Seq<char>) -> bool {
    exists|i: int| 0 <= i < chars.len() && (#[trigger] chars[i]).name@ == n
}

/// The distinct names of `lines` no project character has, in order of
/// first appearance, after those in `acc`.
pub open spec fn unmatched_in(acc: Seq<Seq<char>>, lines: Seq<GeneratedLine>, chars: Seq<Character>) -> Seq<Seq<char>>
    decreases lines.len(),
{
    if lines.len() == 0 {
        acc
    } else {
        let prev = unmatched_in(acc, lines.drop_last(), chars);
        if is_known(chars, lines.last().character@) {
            prev
        } else {
            add_distinct(prev, lines.last().character@)
        }
    }
}

/// The unmatched names of all sections, in order.
pub open spec fn unmatched_names(secs: Seq<GeneratedSection>, chars: Seq<Character>) -> Seq<Seq<char>>
    decreases secs.len(),
{
    if secs.len() == 0 {
        seq![]
    } else {
        unmatched_in(unmatched_names(secs.drop_last(), chars), secs.last().lines@, chars)
    }
}

/// The number of lines of all sections.
pub open spec fn line_total(secs: Seq<GeneratedSection>) -> nat
    decreases secs.len(),
{
    if secs.len() == 0 {
        0
    } else {
        line_total(secs.drop_last()) + secs.last().lines@.len()
    }
}

/// The warnings about one section: no lines, and fewer than three.
pub open spec fn section_warnings(sec: GeneratedSection) -> Seq<Seq<char>> {
    let n = sec.lines@.len();
    let empty: Seq<Seq<char>> = if n == 0 {
        seq!["Section '"@ + sec.title@ + "' has no lines"@]
    } else {
        seq![]
    };
    let short: Seq<Seq<char>> = if n < 3 {
        seq!["Section '"@ + sec.title@ + "' has only "@ + decimal(n) + " lines — may be too short"@]
    } else {
        seq![]
    };
    empty + short
}

/// The warnings about the sections, in order.
pub open spec fn sections_warnings(secs: Seq<GeneratedSection>) -> Seq<Seq<char>>
    decreases secs.len(),
{
    if secs.len() == 0 {
        seq![]
    } else {
        sections_warnings(secs.drop_last()) + section_warnings(secs.last())
    }
}

/// All warnings about a script: those of its sections, then no lines at
/// all, no sections at all, and names no project character has.
pub open spec fn script_warnings(secs: Seq<GeneratedSection>, chars: Seq<Character>) -> Seq<Seq<char>> {
    let u = unmatched_names(secs, chars);
    sections_warnings(secs) + (if line_total(secs) == 0 {
        seq!["Script has no lines at all"@]
    } else {
        seq![]
    }) + (if secs.len() == 0 {
        seq!["Script has no sections at all"@]
    } else {
        seq![]
    }) + (if u.len() > 0 {
        seq![decimal(u.len()) + " characters not matched to existing: "@ + join(u, ", "@)]
    } else {
        seq![]
    })
}

fn known_character(chars: &[Character], n: &str) -> (b: bool)
    ensures
        b == is_known(chars@, n@),
{
    let mut i: usize = 0;
    while i < chars.len()
        invariant
            i <= chars@.len(),
            forall|j: int| 0 <= j < i ==> chars@[j].name@ != n@,
        decreases chars@.len() - i,
    {
        if str_eq(chars[i].name.as_str(), n) {
            return true;
        }
        i = i + 1;
    }
    false
}

fn push_distinct(acc: &mut Vec<String>, x: &String)
    ensures
        views(final(acc)@) == add_distinct(views(old(acc)@), x@),
{
    let mut i: usize = 0;
    while i < acc.len()
        invariant
            i <= acc@.len(),
            forall|j: int| 0 <= j < i ==> acc@[j]@ != x@,
        decreases acc@.len() - i,
    {
        if str_eq(acc[i].as_str(), x.as_str()) {
            proof {
                assert(views(acc@)[i as int] == x@);
            }
            return;
        }
        i = i + 1;
    }
    proof {
        assert(!views(acc@).contains(x@)) by {
            if views(acc@).contains(x@) {
                let k = choose|k: int| 0 <= k < views(acc@).len() && views(acc@)[k] == x@;
                assert(acc@[k]@ == x@);
            }
        }
    }
    let ghost before = acc@;
    acc.push(x.clone());
    proof {
        crate::text::lemma_views_push(before, acc@.last());
    }
}

fn push_warning_text(w: &mut Vec<String>, s: String)
    ensures
        views(final(w)@) == views(old(w)@).push(s@),
{
    let ghost before = w@;
    w.push(s);
    proof {
        crate::text::lemma_views_push(before, w@.last());
    }
}

/// No project character has any of the names `u`, and none of them is
/// listed twice.
pub open spec fn unknown_and_distinct(u: Seq<Seq<char>>, chars: Seq<Character>) -> bool {
    &&& forall|j: int| 0 <= j < u.len() ==> !is_known(chars, #[trigger] u[j])
    &&& forall|i: int, j: int| 0 <= i < j < u.len() ==> u[i] != u[j]
}

proof fn lemma_add_distinct(acc: Seq<Seq<char>>, x: Seq<char>, chars: Seq<Character>)
    requires
        unknown_and_distinct(acc, chars),
        !is_known(chars, x),
    ensures
        unknown_and_distinct(add_distinct(acc, x), chars),
        add_distinct(acc, x).contains(x),
        forall|y: Seq<char>| acc.contains(y) ==> #[trigger] add_distinct(acc, x).contains(y),
{
    if !acc.contains(x) {
        let r = acc.push(x);
        assert(r[acc.len() as int] == x);
        assert forall|y: Seq<char>| acc.contains(y) implies #[trigger] r.contains(y) by {
            let k = choose|k: int| 0 <= k < acc.len() && acc[k] == y;
            assert(r[k] == y);
        }
    }
}

proof fn lemma_unmatched_in(acc: Seq<Seq<char>>, lines: Seq<GeneratedLine>, chars: Seq<Character>)
    requires
        unknown_and_distinct(acc, chars),
    ensures
        unknown_and_distinct(unmatched_in(acc, lines, chars), chars),
        forall|y: Seq<char>| acc.contains(y) ==> #[trigger] unmatched_in(acc, lines, chars).contains(y),
        forall|k: int|
            0 <= k < lines.len() && !is_known(chars, (#[trigger] lines[k]).character@) ==> unmatched_in(
                acc,
                lines,
                chars,
            ).contains(lines[k].character@),
    decreases lines.len(),
{
    if lines.len() > 0 {
        let init = lines.drop_last();
        lemma_unmatched_in(acc, init, chars);
        let prev = unmatched_in(acc, init, chars);
        let x = lines.last().character@;
        if !is_known(chars, x) {
            lemma_add_distinct(prev, x, chars);
        }
        assert forall|k: int|
            0 <= k < lines.len() && !is_known(chars, (#[trigger] lines[k]).character@) implies unmatched_in(
            acc,
            lines,
            chars,
        ).contains(lines[k].character@) by {
            if k < lines.len() - 1 {
                assert(lines[k] == init[k]);
            }
        }
    }
}

/// The names a validation reports as unmatched are exactly the speakers no
/// project character is named after: each such speaker of any line is
/// reported, once, and no reported name belongs to a project character.
pub proof fn law_unmatched_names(secs: Seq<GeneratedSection>, chars: Seq<Character>)
    ensures
        unknown_and_distinct(unmatched_names(secs, chars), chars),
        forall|i: int, k: int|
            0 <= i < secs.len() && 0 <= k < secs[i].lines@.len() && !is_known(
                chars,
                (#[trigger] secs[i].lines@[k]).character@,
            ) ==> unmatched_names(secs, chars).contains(secs[i].lines@[k].character@),
    decreases secs.len(),
{
    if secs.len() > 0 {
        let init = secs.drop_last();
        law_unmatched_names(init, chars);
        let prev = unmatched_names(init, chars);
        lemma_unmatched_in(prev, secs.last().lines@, chars);
        assert forall|i: int, k: int|
            0 <= i < secs.len() && 0 <= k < secs[i].lines@.len() && !is_known(
                chars,
                (#[trigger] secs[i].lines@[k]).character@,
            ) implies unmatched_names(secs, chars).contains(secs[i].lines@[k].character@) by {
            if i < secs.len() - 1 {
                assert(secs[i] == init[i]);
                assert(prev.contains(init[i].lines@[k].character@));
            }
        }
    }
}

/// Checks a generated script against the project's characters: its line
/// and section counts, the names no character has, per-section figures,
/// and warnings (see [`script_warnings`]).
pub fn validate_script(sections: &[GeneratedSection], characters: &[Character]) -> (r: ScriptValidation)
    requires
        line_total(sections@) <= usize::MAX,
    ensures
        r.total_lines == line_total(sections@),
        r.total_sections == sections@.len(),
        views(r.unmatched_characters@) == unmatched_names(sections@, characters@),
        r.section_stats@.len() == sections@.len(),
        forall|i: int| 0 <= i < sections@.len() ==> (#[trigger] r.section_stats@[i]).title@ == sections@[i].title@
            && r.section_stats@[i].line_count == sections@[i].lines@.len()
            && views(r.section_stats@[i].characters@) == distinct_speakers(seq![], sections@[i].lines@),
        views(r.warnings@) == script_warnings(sections@, characters@),
{
    let mut unmatched: Vec<String> = Vec::new();
    let mut stats: Vec<SectionStat> = Vec::new();
    let mut warnings: Vec<String> = Vec::new();
    let mut total: usize = 0;
    let mut i: usize = 0;
    while i < sections.len()
        invariant
            i <= sections@.len(),
            line_total(sections@) <= usize::MAX,
            total == line_total(sections@.take(i as int)),
            views(unmatched@) == unmatched_names(sections@.take(i as int), characters@),
            stats@.len() == i,
            forall|k: int| 0 <= k < i ==> (#[trigger] stats@[k]).title@ == sections@[k].title@
                && stats@[k].line_count == sections@[k].lines@.len()
                && views(stats@[k].characters@) == distinct_speakers(seq![], sections@[k].lines@),
            views(warnings@) == sections_warnings(sections@.take(i as int)),
        decreases sections@.len() - i,
    {
        let section = &sections[i];
        proof {
            assert(sections@.take(i + 1).drop_last() =~= sections@.take(i as int));
            assert(sections@.take(i + 1).last() == sections@[i as int]);
            lemma_line_total_prefix(sections@, i + 1);
        }
        let mut speakers: Vec<String> = Vec::new();
        let mut j: usize = 0;
        let ghost u0 = views(unmatched@);
        while j < section.lines.len()
            invariant
                j <= section.lines@.len(),
                views(unmatched@) == unmatched_in(u0, section.lines@.take(j as int), characters@),
                views(speakers@) == distinct_speakers(seq![], section.lines@.take(j as int)),
            decreases section.lines@.len() - j,
        {
            let line = &section.lines[j];
            proof {
                assert(section.lines@.take(j + 1).drop_last() =~= section.lines@.take(j as int));
                assert(section.lines@.take(j + 1).last() == section.lines@[j as int]);
            }
            if !known_character(characters, line.character.as_str()) {
                push_distinct(&mut unmatched, &line.character);
            }
            push_distinct(&mut speakers, &line.character);
            j = j + 1;
        }
        proof {
            assert(section.lines@.take(j as int) =~= section.lines@);
        }
        let n = section.lines.len();
        stats.push(SectionStat { title: section.title.clone(), line_count: n, characters: speakers });
        let ghost w0 = views(warnings@);
        if n == 0 {
            let mut w = owned("Section '");
            append_str(&mut w, section.title.as_str());
            append_str(&mut w, "' has no lines");
            push_warning_text(&mut warnings, w);
        }
        if n < 3 {
            let mut w = owned("Section '");
            append_str(&mut w, section.title.as_str());
            append_str(&mut w, "' has only ");
            push_decimal(&mut w, n as u128);
            append_str(&mut w, " lines — may be too short");
            push_warning_text(&mut warnings, w);
        }
        proof {
            assert(views(warnings@) =~= w0 + section_warnings(*section));
        }
        total = total + n;
        i = i + 1;
    }
    proof {
        assert(sections@.take(i as int) =~= sections@);
    }
    let ghost ws = views(warnings@);
    if total == 0 {
        push_warning_text(&mut warnings, owned("Script has no lines at all"));
    }
    let ghost ws1 = views(warnings@);
    if sections.len() == 0 {
        push_warning_text(&mut warnings, owned("Script has no sections at all"));
    }
    let ghost ws2 = views(warnings@);
    if unmatched.len() > 0 {
        let mut w = crate::fmt::decimal_text(unmatched.len() as u128);
        append_str(&mut w, " characters not matched to existing: ");
        let names = join_strings(unmatched.as_slice(), ", ");
        append_str(&mut w, names.as_str());
        push_warning_text(&mut warnings, w);
    }
    proof {
        let u = unmatched_names(sections@, characters@);
        assert(views(unmatched@).len() == unmatched@.len());
        assert(views(warnings@) =~= script_warnings(sections@, characters@));
    }
    ScriptValidation {
        total_lines: total,
        total_sections: sections.len(),
        unmatched_characters: unmatched,
        section_stats: stats,
        warnings,
    }
}

proof fn lemma_line_total_prefix(secs: Seq<GeneratedSection>, k: int)
    requires
        0 <= k <= secs.len(),
    ensures
        line_total(secs.take(k)) <= line_total(secs),
    decreases secs.len() - k,
{
    if k < secs.len() {
        lemma_line_total_prefix(secs, k + 1);
        assert(secs.take(k + 1).drop_last() =~= secs.take(k));
    } else {
        assert(secs.take(k) =~= secs);
    }
}


/// The lines of all sections in order, each with its section's index.
pub open spec fn all_lines(secs: Seq<GeneratedSection>) -> Seq<(nat, GeneratedLine)>
    decreases secs.len(),
{
    if secs.len() == 0 {
        seq![]
    } else {
        let i = (secs.len() - 1) as nat;
        all_lines(secs.drop_last()) + secs.last().lines@.map_values(|l: GeneratedLine| (i, l))
    }
}

/// Line `k` of a generated script, from line `gl`: its project, order,
/// text, character (the first project character with its name), pause and
/// empty instructions. Its id and its section's id are checked apart.
pub open spec fn generated_line_ok(line: ScriptLine, k: int, gl: GeneratedLine, project_id: Seq<char>, chars: Seq<Character>) -> bool {
    &&& line.project_id@ == project_id
    &&& line.line_order == k
    &&& line.text@ == gl.text@
    &&& crate::dashscope::opt_view(line.character_id) == crate::script::resolved_character(Some(gl.character@), chars)
    &&& line.gap_after_ms == gl.gap_after_ms
    &&& line.instructions@ == Seq::<char>::empty()
}

/// Every entry of [`all_lines`] carries the index of a section.
proof fn lemma_all_lines_index(secs: Seq<GeneratedSection>)
    ensures
        forall|k: int| 0 <= k < all_lines(secs).len() ==> (#[trigger] all_lines(secs)[k]).0 < secs.len(),
    decreases secs.len(),
{
    if secs.len() > 0 {
        let init = secs.drop_last();
        lemma_all_lines_index(init);
        let a = all_lines(init);
        let t = secs.last().lines@.map_values(|l: GeneratedLine| ((secs.len() - 1) as nat, l));
        assert forall|k: int| 0 <= k < all_lines(secs).len() implies (#[trigger] all_lines(secs)[k]).0 < secs.len() by {
            if k < a.len() {
                assert(all_lines(secs)[k] == a[k]);
            } else {
                assert(all_lines(secs)[k] == t[k - a.len()]);
            }
        }
    }
}

/// Converting a generated script keeps every line: it makes as many script
/// lines as the validation counts.
pub proof fn law_conversion_keeps_lines(secs: Seq<GeneratedSection>)
    ensures
        all_lines(secs).len() == line_total(secs),
    decreases secs.len(),
{
    if secs.len() > 0 {
        law_conversion_keeps_lines(secs.drop_last());
    }
}

/// The sections and lines of a script the generation tool wrote, with
/// their per-section speakers. Every section and every line gets a fresh
/// random id (so that one project's script never takes another's ids), and
/// each line points at the id of the section it came from; line `k` (over
/// all sections) has order `k`, the first project character with its
/// speaker's name, and empty instructions.
pub fn convert_generated_script(project_id: &str, resp: &ScriptGenerationResponse, characters: &[Character]) -> (r: (Vec<ScriptSection>, Vec<ScriptLine>, Vec<Vec<String>>))
    requires
        line_total(resp.sections@) <= i32::MAX,
    ensures
        r.0@.len() == resp.sections@.len(),
        forall|i: int| 0 <= i < r.0@.len() ==> (#[trigger] r.0@[i]).project_id@ == project_id@
            && r.0@[i].title@ == resp.sections@[i].title@ && r.0@[i].section_order == i as i32,
        r.1@.len() == all_lines(resp.sections@).len(),
        forall|k: int| 0 <= k < r.1@.len() ==> generated_line_ok(#[trigger] r.1@[k], k, all_lines(resp.sections@)[k].1, project_id@, characters@),
        forall|k: int| 0 <= k < r.1@.len() ==> crate::dashscope::opt_view((#[trigger] r.1@[k]).section_id)
            == Some(r.0@[all_lines(resp.sections@)[k].0 as int].id@),
        r.2@.len() == resp.sections@.len(),
        forall|i: int| 0 <= i < r.2@.len() ==> views((#[trigger] r.2@[i])@) == distinct_speakers(seq![], resp.sections@[i].lines@),
{
    let mut sections: Vec<ScriptSection> = Vec::new();
    let mut lines: Vec<ScriptLine> = Vec::new();
    let mut speakers_all: Vec<Vec<String>> = Vec::new();
    let mut line_order: i32 = 0;
    let mut i: usize = 0;
    proof {
        law_conversion_keeps_lines(resp.sections@);
    }
    while i < resp.sections.len()
        invariant
            i <= resp.sections@.len(),
            line_total(resp.sections@) <= i32::MAX,
            all_lines(resp.sections@).len() == line_total(resp.sections@),
            sections@.len() == i,
            speakers_all@.len() == i,
            forall|j: int| 0 <= j < i ==> (#[trigger] sections@[j]).project_id@ == project_id@
                && sections@[j].title@ == resp.sections@[j].title@ && sections@[j].section_order == j as i32,
            forall|j: int| 0 <= j < i ==> views((#[trigger] speakers_all@[j])@) == distinct_speakers(seq![], resp.sections@[j].lines@),
            lines@.len() == all_lines(resp.sections@.take(i as int)).len(),
            line_order == lines@.len(),
            forall|k: int| 0 <= k < lines@.len() ==> generated_line_ok(#[trigger] lines@[k], k, all_lines(resp.sections@.take(i as int))[k].1, project_id@, characters@),
            forall|k: int| 0 <= k < lines@.len() ==> all_lines(resp.sections@.take(i as int))[k].0 < i
                && crate::dashscope::opt_view((#[trigger] lines@[k]).section_id)
                == Some(sections@[all_lines(resp.sections@.take(i as int))[k].0 as int].id@),
        decreases resp.sections@.len() - i,
    {
        let section = &resp.sections[i];
        proof {
            assert(resp.sections@.take(i + 1).drop_last() =~= resp.sections@.take(i as int));
            assert(resp.sections@.take(i + 1).last() == resp.sections@[i as int]);
            law_conversion_keeps_lines(resp.sections@.take(i + 1));
            lemma_line_total_prefix(resp.sections@, i + 1);
        }
        let sid = crate::script::new_id();
        proof {
            lemma_all_lines_index(resp.sections@.take(i as int));
        }
        let ghost sections0 = sections@;
        sections.push(ScriptSection {
            id: sid.clone(),
            project_id: owned(project_id),
            title: section.title.clone(),
            section_order: i as i32,
        });
        let ghost base = all_lines(resp.sections@.take(i as int));
        let ghost tagged = section.lines@.map_values(|l: GeneratedLine| (i as nat, l));
        let mut speakers: Vec<String> = Vec::new();
        let mut j: usize = 0;
        while j < section.lines.len()
            invariant
                i < resp.sections@.len(),
                section == resp.sections@[i as int],
                j <= section.lines@.len(),
                sections@.len() == i + 1,
                sections@[i as int].id@ == sid@,
                forall|q: int| 0 <= q < i ==> sections@[q] == sections0[q],
                tagged == section.lines@.map_values(|l: GeneratedLine| (i as nat, l)),
                base == all_lines(resp.sections@.take(i as int)),
                base.len() + section.lines@.len() <= i32::MAX,
                lines@.len() == base.len() + j,
                line_order == lines@.len(),
                forall|k: int| 0 <= k < lines@.len() ==> generated_line_ok(#[trigger] lines@[k], k, (base + tagged)[k].1, project_id@, characters@),
                forall|k: int| 0 <= k < lines@.len() ==> (base + tagged)[k].0 <= i
                    && crate::dashscope::opt_view((#[trigger] lines@[k]).section_id)
                    == Some(sections@[(base + tagged)[k].0 as int].id@),
                views(speakers@) == distinct_speakers(seq![], section.lines@.take(j as int)),
            decreases section.lines@.len() - j,
        {
            let gl = &section.lines[j];
            proof {
                assert(section.lines@.take(j + 1).drop_last() =~= section.lines@.take(j as int));
                assert(section.lines@.take(j + 1).last() == section.lines@[j as int]);
            }
            let k = find_named(characters, gl.character.as_str());
            let character_id = if k < characters.len() {
                Some(characters[k].id.clone())
            } else {
                None
            };
            push_distinct(&mut speakers, &gl.character);
            let lid = crate::script::new_id();
            let ghost lines0 = lines@;
            lines.push(ScriptLine {
                id: lid,
                project_id: owned(project_id),
                line_order,
                text: gl.text.clone(),
                character_id,
                gap_after_ms: gl.gap_after_ms,
                instructions: String::new(),
                section_id: Some(sid.clone()),
            });
            proof {
                assert((base + tagged)[lines0.len() as int] == tagged[j as int]);
                assert forall|q: int| 0 <= q < lines@.len() implies generated_line_ok(#[trigger] lines@[q], q, (base + tagged)[q].1, project_id@, characters@) by {
                    if q < lines0.len() {
                        assert(lines@[q] == lines0[q]);
                    }
                }
                assert forall|q: int| 0 <= q < lines@.len() implies (base + tagged)[q].0 <= i
                    && crate::dashscope::opt_view((#[trigger] lines@[q]).section_id)
                    == Some(sections@[(base + tagged)[q].0 as int].id@) by {
                    if q < lines0.len() {
                        assert(lines@[q] == lines0[q]);
                    } else {
                        assert((base + tagged)[q] == tagged[j as int]);
                    }
                }
            }
            line_order = line_order + 1;
            j = j + 1;
        }
        proof {
            assert(section.lines@.take(j as int) =~= section.lines@);
            assert(all_lines(resp.sections@.take(i + 1)) == base + tagged);
        }
        speakers_all.push(speakers);
        i = i + 1;
    }
    proof {
        assert(resp.sections@.take(i as int) =~= resp.sections@);
    }
    (sections, lines, speakers_all)
}

/// Index of the first character named `n`, or `chars.len()`.
fn find_named(chars: &[Character], n: &str) -> (k: usize)
    ensures
        k == crate::script::first_named(chars@, n@),
        k <= chars@.len(),
{
    let mut k: usize = 0;
    while k < chars.len() && !str_eq(chars[k].name.as_str(), n)
        invariant
            k <= chars@.len(),
            forall|j: int| 0 <= j < k ==> chars@[j].name@ != n@,
        decreases chars@.len() - k,
    {
        k = k + 1;
    }
    proof {
        crate::script::lemma_first_named(chars@, n@, k as int);
    }
    k
}


// ---------------------------------------------------------------------------
// Story knowledge base
// ---------------------------------------------------------------------------

/// The arguments of a story memory call.
#[derive(Clone, Debug, PartialEq)]
pub struct StoryMemoryArgs {
    pub action: String,
    pub text: Option<String>,
    pub kb_type: Option<String>,
    pub item_id: Option<String>,
}

/// A stored story fact as the memory tool lists it.
#[derive(Clone, Debug, PartialEq)]
pub struct StoredMemory {
    pub id: String,
    pub text: String,
    pub kb_type: String,
    pub metadata: String,
}

/// What a story memory call answers.
#[derive(Clone, Debug, PartialEq)]
pub struct StoryMemoryResponse {
    pub action: String,
    pub message: String,
    pub items: Option<Vec<StoredMemory>>,
}

/// The arguments of a story recall call.
#[derive(Clone, Debug, PartialEq)]
pub struct StoryRecallArgs {
    pub query: String,
    pub kb_type: Option<String>,
    pub top_k: usize,
}

/// The number of recall results when none is asked for.
pub fn default_top_k() -> (r: usize)
    ensures
        r == 5,
{
    5
}

/// What a story memory call does.
#[derive(Clone, Debug, PartialEq)]
pub enum MemoryAction {
    /// Store `text` as a fact of kind `kb_type`.
    Add { text: String, kb_type: String },
    /// List the stored facts.
    List,
    /// Delete the fact `item_id`.
    Delete { item_id: String },
}

/// The action of a story memory call: `add` needs a text (its kind
/// defaults to `plot`), `delete` needs an item id, `list` needs nothing;
/// any other action, or a missing argument, is an error.
pub fn plan_memory_action(args: &StoryMemoryArgs) -> (r: Result<MemoryAction, AppError>)
    ensures
        args.action@ == "add"@ ==> match args.text {
            Some(t) => r matches Ok(MemoryAction::Add { text, kb_type }) && text@ == t@ && kb_type@ == (match args.kb_type {
                Some(k) => k@,
                None => "plot"@,
            }),
            None => r matches Err(AppError::LlmService(m)) && m@ == "'text' is required for action 'add'"@,
        },
        args.action@ == "list"@ ==> r matches Ok(MemoryAction::List),
        args.action@ == "delete"@ ==> match args.item_id {
            Some(i) => r matches Ok(MemoryAction::Delete { item_id }) && item_id@ == i@,
            None => r matches Err(AppError::LlmService(m)) && m@ == "'item_id' is required for action 'delete'"@,
        },
        args.action@ != "add"@ && args.action@ != "list"@ && args.action@ != "delete"@ ==> (r matches Err(AppError::LlmService(m))
            && m@ == "Unknown action for story_memory: "@ + args.action@),
{
    proof {
        reveal_strlit("add");
        reveal_strlit("list");
        reveal_strlit("delete");
        assert("add"@.len() == 3 && "list"@.len() == 4 && "delete"@.len() == 6);
        assert("add"@ != "list"@ && "add"@ != "delete"@ && "list"@ != "delete"@);
    }
    let a = args.action.as_str();
    if str_eq(a, "add") {
        match &args.text {
            Some(t) => {
                let kb_type = match &args.kb_type {
                    Some(k) => k.clone(),
                    None => owned("plot"),
                };
                Ok(MemoryAction::Add { text: t.clone(), kb_type })
            },
            None => Err(AppError::LlmService(owned("'text' is required for action 'add'"))),
        }
    } else if str_eq(a, "list") {
        Ok(MemoryAction::List)
    } else if str_eq(a, "delete") {
        match &args.item_id {
            Some(i) => Ok(MemoryAction::Delete { item_id: i.clone() }),
            None => Err(AppError::LlmService(owned("'item_id' is required for action 'delete'"))),
        }
    } else {
        let mut m = owned("Unknown action for story_memory: ");
        append_str(&mut m, a);
        Err(AppError::LlmService(m))
    }
}

/// The fact a memory `add` stores, given its fresh id, its embedding (as
/// JSON) and the time: empty metadata.
pub fn memory_item(id: String, project_id: &str, text: &str, embedding_json: String, kb_type: &str, created_at: String) -> (r: StoryKnowledgeItem)
    ensures
        r.id == id,
        r.project_id@ == project_id@,
        r.text@ == text@,
        r.embedding == embedding_json,
        r.kb_type@ == kb_type@,
        r.metadata@ == "{}"@,
        r.created_at == created_at,
{
    StoryKnowledgeItem {
        id,
        project_id: owned(project_id),
        text: owned(text),
        embedding: embedding_json,
        kb_type: owned(kb_type),
        metadata: owned("{}"),
        created_at,
    }
}

/// The answer to a memory `add` of `text`.
pub fn memory_added_response(text: &str) -> (r: StoryMemoryResponse)
    ensures
        r.action@ == "add"@,
        r.message@ == "Stored: \""@ + text@ + "\""@,
        r.items is None,
{
    let mut m = owned("Stored: \"");
    append_str(&mut m, text);
    append_str(&mut m, "\"");
    StoryMemoryResponse { action: owned("add"), message: m, items: None }
}

/// The answer to a memory `list`: how many facts are stored, and them.
pub fn memory_list_response(items: Vec<StoryKnowledgeItem>) -> (r: StoryMemoryResponse)
    ensures
        r.action@ == "list"@,
        r.message@ == decimal(items@.len()) + " memories stored"@,
        r.items matches Some(v) && v@.len() == items@.len() && forall|i: int| 0 <= i < v@.len() ==> (#[trigger] v@[i]).id == items@[i].id
            && v@[i].text == items@[i].text && v@[i].kb_type == items@[i].kb_type && v@[i].metadata == items@[i].metadata,
{
    let n = items.len();
    let mut stored: Vec<StoredMemory> = Vec::new();
    let mut i: usize = 0;
    while i < n
        invariant
            n == items@.len(),
            i <= n,
            stored@.len() == i,
            forall|j: int| 0 <= j < i ==> (#[trigger] stored@[j]).id == items@[j].id
                && stored@[j].text == items@[j].text && stored@[j].kb_type == items@[j].kb_type
                && stored@[j].metadata == items@[j].metadata,
        decreases n - i,
    {
        let it = &items[i];
        stored.push(StoredMemory {
            id: it.id.clone(),
            text: it.text.clone(),
            kb_type: it.kb_type.clone(),
            metadata: it.metadata.clone(),
        });
        i = i + 1;
    }
    let mut m = crate::fmt::decimal_text(n as u128);
    append_str(&mut m, " memories stored");
    StoryMemoryResponse { action: owned("list"), message: m, items: Some(stored) }
}

/// The answer to a memory `delete` of `item_id`.
pub fn memory_deleted_response(item_id: &str) -> (r: StoryMemoryResponse)
    ensures
        r.action@ == "delete"@,
        r.message@ == "Deleted memory: "@ + item_id@,
        r.items is None,
{
    let mut m = owned("Deleted memory: ");
    append_str(&mut m, item_id);
    StoryMemoryResponse { action: owned("delete"), message: m, items: None }
}

/// One stored fact as the memory tool reports it.
pub open spec fn memory_line(m: StoredMemory) -> Seq<char> {
    "- ["@ + m.kb_type@ + "] "@ + m.id@ + ": "@ + m.text@
}

/// What the memory tool reports: its message, then the listed facts.
pub open spec fn memory_report_text(r: StoryMemoryResponse) -> Seq<char> {
    match r.items {
        Some(items) => r.message@ + "\n\n"@ + join(items@.map_values(|m: StoredMemory| memory_line(m)), "\n"@),
        None => r.message@,
    }
}

/// Builds [`memory_report_text`].
pub fn memory_tool_report(resp: &StoryMemoryResponse) -> (r: String)
    ensures
        r@ == memory_report_text(*resp),
{
    match &resp.items {
        Some(items) => {
            let mut lines: Vec<String> = Vec::new();
            let mut i: usize = 0;
            while i < items.len()
                invariant
                    i <= items@.len(),
                    views(lines@) == items@.take(i as int).map_values(|m: StoredMemory| memory_line(m)),
                decreases items@.len() - i,
            {
                let it = &items[i];
                let mut l = owned("- [");
                append_str(&mut l, it.kb_type.as_str());
                append_str(&mut l, "] ");
                append_str(&mut l, it.id.as_str());
                append_str(&mut l, ": ");
                append_str(&mut l, it.text.as_str());
                let ghost before = lines@;
                lines.push(l);
                proof {
                    crate::text::lemma_views_push(before, lines@.last());
                    assert(items@.take(i + 1).map_values(|m: StoredMemory| memory_line(m)) =~= items@.take(i as int).map_values(|m: StoredMemory| memory_line(m)).push(memory_line(items@[i as int])));
                }
                i = i + 1;
            }
            assert(items@.take(i as int) =~= items@);
            let mut r = resp.message.clone();
            append_str(&mut r, "\n\n");
            let body = join_strings(lines.as_slice(), "\n");
            append_str(&mut r, body.as_str());
            r
        },
        None => resp.message.clone(),
    }
}

/// The kind filter of a recall: the asked kind unless it is `any`.
pub fn recall_kind_filter(kb_type: &Option<String>) -> (r: Option<String>)
    ensures
        match kb_type {
            Some(k) => if k@ == "any"@ { r is None } else { r matches Some(x) && x@ == k@ },
            None => r is None,
        },
{
    match kb_type {
        Some(k) => if str_eq(k.as_str(), "any") {
            None
        } else {
            Some(k.clone())
        },
        None => None,
    }
}

/// The number of recall results: the asked number, or 5 for 0.
pub fn recall_count(top_k: usize) -> (r: usize)
    ensures
        r == (if top_k == 0 { 5 } else { top_k }),
{
    if top_k == 0 {
        5
    } else {
        top_k
    }
}


// ---------------------------------------------------------------------------
// Indexing a script into the knowledge base
// ---------------------------------------------------------------------------

/// A section of a script as one entry of the knowledge base.
#[derive(Clone, Debug, PartialEq)]
pub struct KbChunk {
    pub section_id: String,
    pub section_title: String,
    pub text: String,
    pub line_count: usize,
}

/// The texts of the lines that belong to section `id`, in order.
pub open spec fn section_texts(lines: Seq<ScriptLine>, id: Seq<char>) -> Seq<Seq<char>>
    decreases lines.len(),
{
    if lines.len() == 0 {
        seq![]
    } else {
        let prev = section_texts(lines.drop_last(), id);
        if crate::dashscope::opt_view(lines.last().section_id) == Some(id) {
            prev.push(lines.last().text@)
        } else {
            prev
        }
    }
}

/// The knowledge base entries of a script: per section with lines, in
/// order, its id, title, lines joined by newlines, and line count.
pub open spec fn kb_chunks_of(sections: Seq<ScriptSection>, lines: Seq<ScriptLine>) -> Seq<(Seq<char>, Seq<char>, Seq<char>, nat)>
    decreases sections.len(),
{
    if sections.len() == 0 {
        seq![]
    } else {
        let prev = kb_chunks_of(sections.drop_last(), lines);
        let s = sections.last();
        let t = section_texts(lines, s.id@);
        if t.len() > 0 {
            prev.push((s.id@, s.title@, join(t, "\n"@), t.len()))
        } else {
            prev
        }
    }
}

pub open spec fn kb_chunk_view(c: KbChunk) -> (Seq<char>, Seq<char>, Seq<char>, nat) {
    (c.section_id@, c.section_title@, c.text@, c.line_count as nat)
}

/// The entries of the knowledge base built from a script; see
/// [`kb_chunks_of`].
pub fn kb_chunks(sections: &[ScriptSection], lines: &[ScriptLine]) -> (r: Vec<KbChunk>)
    ensures
        r@.map_values(|c: KbChunk| kb_chunk_view(c)) == kb_chunks_of(sections@, lines@),
{
    let mut r: Vec<KbChunk> = Vec::new();
    let mut i: usize = 0;
    while i < sections.len()
        invariant
            i <= sections@.len(),
            r@.map_values(|c: KbChunk| kb_chunk_view(c)) == kb_chunks_of(sections@.take(i as int), lines@),
        decreases sections@.len() - i,
    {
        let s = &sections[i];
        proof {
            assert(sections@.take(i + 1).drop_last() =~= sections@.take(i as int));
            assert(sections@.take(i + 1).last() == sections@[i as int]);
        }
        let mut texts: Vec<String> = Vec::new();
        let mut j: usize = 0;
        while j < lines.len()
            invariant
                j <= lines@.len(),
                views(texts@) == section_texts(lines@.take(j as int), s.id@),
            decreases lines@.len() - j,
        {
            let l = &lines[j];
            proof {
                assert(lines@.take(j + 1).drop_last() =~= lines@.take(j as int));
                assert(lines@.take(j + 1).last() == lines@[j as int]);
            }
            let belongs = match &l.section_id {
                Some(x) => str_eq(x.as_str(), s.id.as_str()),
                None => false,
            };
            if belongs {
                let ghost before = texts@;
                texts.push(l.text.clone());
                proof {
                    crate::text::lemma_views_push(before, texts@.last());
                }
            }
            j = j + 1;
        }
        assert(lines@.take(j as int) =~= lines@);
        if texts.len() > 0 {
            let ghost before = r@;
            let text = join_strings(texts.as_slice(), "\n");
            r.push(KbChunk {
                section_id: s.id.clone(),
                section_title: s.title.clone(),
                text,
                line_count: texts.len(),
            });
            proof {
                assert(r@.map_values(|c: KbChunk| kb_chunk_view(c)) =~= before.map_values(|c: KbChunk| kb_chunk_view(c)).push(kb_chunk_view(r@.last())));
            }
        }
        i = i + 1;
    }
    assert(sections@.take(i as int) =~= sections@);
    r
}

/// The text a knowledge base entry stores: its section's title in brackets,
/// then its lines.
pub fn kb_entry_text(chunk: &KbChunk) -> (r: String)
    ensures
        r@ == "["@ + chunk.section_title@ + "] "@ + chunk.text@,
{
    let mut r = owned("[");
    append_str(&mut r, chunk.section_title.as_str());
    append_str(&mut r, "] ");
    append_str(&mut r, chunk.text.as_str());
    r
}

/// The metadata a knowledge base entry stores, as JSON: its line count and
/// its section's id and title (keys in `serde_json`'s sorted order).
pub fn kb_entry_metadata(chunk: &KbChunk) -> (r: String)
    ensures
        r@ == "{\"line_count\":"@ + decimal(chunk.line_count as nat) + ",\"section_id\":"@
            + crate::dashscope::json_quoted(chunk.section_id@) + ",\"section_title\":"@
            + crate::dashscope::json_quoted(chunk.section_title@) + "}"@,
{
    let mut r = owned("{\"line_count\":");
    push_decimal(&mut r, chunk.line_count as u128);
    append_str(&mut r, ",\"section_id\":");
    let qi = crate::dashscope::json_string(chunk.section_id.as_str());
    append_str(&mut r, qi.as_str());
    append_str(&mut r, ",\"section_title\":");
    let qt = crate::dashscope::json_string(chunk.section_title.as_str());
    append_str(&mut r, qt.as_str());
    append_str(&mut r, "}");
    r
}

// ---------------------------------------------------------------------------
// Voice suggestions by role
// ---------------------------------------------------------------------------

/// The lowercase of `s` as `str::to_lowercase` computes it.
pub uninterp spec fn lowercased(s: Seq<char>) -> Seq<char>;

/// `str::to_lowercase`: the Unicode lowercase of `s`. The case mapping is
/// std's tables, named here and not restated.
#[verifier::external_body]
fn lowercase(s: &str) -> (r: String)
    ensures
        r@ == lowercased(s@),
{
    s.to_lowercase()
}

/// The kind of voice a character's role suggests.
#[derive(Clone, Debug, PartialEq)]
pub enum RoleVoice {
    /// A child or young character.
    Young,
    /// An elderly character.
    Elderly,
    /// An antagonist.
    Antagonist,
    /// The narrator.
    Narrator,
    /// No trait found, but the notes mention the character.
    MentionedInNotes,
    /// Nothing found.
    Plain,
}

/// The voice a role suggests, given the lowercased role, name and notes: by
/// keywords of the role, in this order of precedence, else by whether the
/// notes mention the name.
pub open spec fn role_kind(r: Seq<char>, name: Seq<char>, notes: Seq<char>) -> RoleVoice {
    if contains_seq(r, "child"@) || contains_seq(r, "young"@) || contains_seq(r, "小孩"@) || contains_seq(r, "少年"@) {
        RoleVoice::Young
    } else if contains_seq(r, "old"@) || contains_seq(r, "elder"@) || contains_seq(r, "老人"@) || contains_seq(r, "老年"@) {
        RoleVoice::Elderly
    } else if contains_seq(r, "antagonist"@) || contains_seq(r, "villain"@) || contains_seq(r, "反派"@) {
        RoleVoice::Antagonist
    } else if contains_seq(r, "narrator"@) || contains_seq(r, "旁白"@) || contains_seq(r, "叙述"@) {
        RoleVoice::Narrator
    } else if contains_seq(notes, name) {
        RoleVoice::MentionedInNotes
    } else {
        RoleVoice::Plain
    }
}

/// The voice a role suggests: [`role_kind`] of the lowercased role, name
/// and notes.
pub open spec fn role_voice_of(role: Seq<char>, name: Seq<char>, notes: Seq<char>) -> RoleVoice {
    role_kind(lowercased(role), lowercased(name), lowercased(notes))
}

/// The voice a lowercased role suggests, by the words it holds, in this
/// order of precedence: a child or young person; else an old person or an
/// elder; else an antagonist or villain; else a narrator; else whether the
/// notes mention the name.
pub proof fn law_role_words(r: Seq<char>, name: Seq<char>, notes: Seq<char>)
    ensures
        (contains_seq(r, "child"@) || contains_seq(r, "young"@) || contains_seq(r, "小孩"@)
            || contains_seq(r, "少年"@)) ==> role_kind(r, name, notes) == RoleVoice::Young,
        !(contains_seq(r, "child"@) || contains_seq(r, "young"@) || contains_seq(r, "小孩"@)
            || contains_seq(r, "少年"@)) ==> {
            &&& (contains_seq(r, "old"@) || contains_seq(r, "elder"@) || contains_seq(r, "老人"@)
                || contains_seq(r, "老年"@)) ==> role_kind(r, name, notes) == RoleVoice::Elderly
            &&& !(contains_seq(r, "old"@) || contains_seq(r, "elder"@) || contains_seq(r, "老人"@)
                || contains_seq(r, "老年"@)) ==> {
                &&& (contains_seq(r, "antagonist"@) || contains_seq(r, "villain"@) || contains_seq(r, "反派"@))
                    ==> role_kind(r, name, notes) == RoleVoice::Antagonist
                &&& !(contains_seq(r, "antagonist"@) || contains_seq(r, "villain"@) || contains_seq(r, "反派"@))
                    ==> {
                    &&& (contains_seq(r, "narrator"@) || contains_seq(r, "旁白"@) || contains_seq(r, "叙述"@))
                        ==> role_kind(r, name, notes) == RoleVoice::Narrator
                    &&& !(contains_seq(r, "narrator"@) || contains_seq(r, "旁白"@) || contains_seq(r, "叙述"@))
                        ==> role_kind(r, name, notes) == (if contains_seq(notes, name) {
                        RoleVoice::MentionedInNotes
                    } else {
                        RoleVoice::Plain
                    })
                }
            }
        },
{
}

/// Classifies already lowercased text; see [`role_kind`].
pub fn classify_role(role_lower: &str, name_lower: &str, notes_lower: &str) -> (r: RoleVoice)
    ensures
        r == role_kind(role_lower@, name_lower@, notes_lower@),
{
    let rl = role_lower;
    if contains(rl, "child") || contains(rl, "young") || contains(rl, "小孩") || contains(rl, "少年") {
        RoleVoice::Young
    } else if contains(rl, "old") || contains(rl, "elder") || contains(rl, "老人") || contains(rl, "老年") {
        RoleVoice::Elderly
    } else if contains(rl, "antagonist") || contains(rl, "villain") || contains(rl, "反派") {
        RoleVoice::Antagonist
    } else if contains(rl, "narrator") || contains(rl, "旁白") || contains(rl, "叙述") {
        RoleVoice::Narrator
    } else if contains(notes_lower, name_lower) {
        RoleVoice::MentionedInNotes
    } else {
        RoleVoice::Plain
    }
}

/// Classifies a suggested character's voice; see [`role_voice_of`].
pub fn role_voice(role: &str, name: &str, notes: &str) -> (r: RoleVoice)
    ensures
        r == role_voice_of(role@, name@, notes@),
{
    let r = lowercase(role);
    let n = lowercase(name);
    let t = lowercase(notes);
    classify_role(r.as_str(), n.as_str(), t.as_str())
}

/// Why a voice was suggested.
pub fn role_voice_reason(v: &RoleVoice) -> (r: &'static str)
    ensures
        match v {
            RoleVoice::Young => r@ == "Young/child character — faster pace, higher pitch"@,
            RoleVoice::Elderly => r@ == "Elderly character — slower pace, lower pitch"@,
            RoleVoice::Antagonist => r@ == "Antagonist — slightly slower, deeper voice for dramatic effect"@,
            RoleVoice::Narrator => r@ == "Narrator — neutral, clear pacing"@,
            RoleVoice::MentionedInNotes => r@ == "Default — no specific voice traits detected"@,
            RoleVoice::Plain => r@ == "Default pacing and pitch"@,
        },
{
    match v {
        RoleVoice::Young => "Young/child character — faster pace, higher pitch",
        RoleVoice::Elderly => "Elderly character — slower pace, lower pitch",
        RoleVoice::Antagonist => "Antagonist — slightly slower, deeper voice for dramatic effect",
        RoleVoice::Narrator => "Narrator — neutral, clear pacing",
        RoleVoice::MentionedInNotes => "Default — no specific voice traits detected",
        RoleVoice::Plain => "Default pacing and pitch",
    }
}

// ---------------------------------------------------------------------------
// Retrying unparsable replies
// ---------------------------------------------------------------------------

/// The message asking the model to answer again in plain JSON.
pub fn correction_message(parse_error: &str) -> (r: String)
    ensures
        r@ == "Your previous response could not be parsed as valid JSON. Error: "@ + parse_error@
            + "\nPlease return ONLY valid JSON with no markdown code fences, no surrounding text."@,
{
    let mut r = owned("Your previous response could not be parsed as valid JSON. Error: ");
    append_str(&mut r, parse_error);
    append_str(&mut r, "\nPlease return ONLY valid JSON with no markdown code fences, no surrounding text.");
    r
}

/// How many times an unparsable reply is asked for again.
pub const MAX_PARSE_RETRIES: u32 = 2;

/// What to do after a reply could not be parsed.
#[derive(Clone, Debug, PartialEq)]
pub enum ParseRetry {
    /// Ask again with the correction message.
    Retry,
    /// Stop with this error.
    GiveUp(AppError),
}

/// After retry `attempt` (counting from 1) of outline analysis: ask again
/// while retries remain, else give up quoting the last parse error.
pub fn outline_retry(attempt: u32, parse_error: &str) -> (r: ParseRetry)
    ensures
        attempt <= MAX_PARSE_RETRIES ==> r is Retry,
        attempt > MAX_PARSE_RETRIES ==> (r matches ParseRetry::GiveUp(AppError::LlmService(m)) && m@
            == "Failed to parse outline after "@ + decimal(attempt as nat) + " attempts: "@ + parse_error@),
{
    if attempt <= MAX_PARSE_RETRIES {
        ParseRetry::Retry
    } else {
        let mut m = owned("Failed to parse outline after ");
        push_decimal(&mut m, attempt as u128);
        append_str(&mut m, " attempts: ");
        append_str(&mut m, parse_error);
        ParseRetry::GiveUp(AppError::LlmService(m))
    }
}

/// After attempt `attempt` (counting from 1) of script generation failed to
/// parse: ask again while retries remain, else give up quoting the error.
pub fn script_retry(attempt: u32, parse_error: &str) -> (r: ParseRetry)
    ensures
        attempt <= MAX_PARSE_RETRIES ==> r is Retry,
        attempt > MAX_PARSE_RETRIES ==> (r matches ParseRetry::GiveUp(AppError::LlmService(m)) && m@
            == "Failed to parse script after "@ + decimal(attempt as nat) + " attempts: "@ + parse_error@),
{
    if attempt <= MAX_PARSE_RETRIES {
        ParseRetry::Retry
    } else {
        let mut m = owned("Failed to parse script after ");
        push_decimal(&mut m, attempt as u128);
        append_str(&mut m, " attempts: ");
        append_str(&mut m, parse_error);
        ParseRetry::GiveUp(AppError::LlmService(m))
    }
}

} // verus!
