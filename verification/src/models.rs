//! Plain data of a project: projects, characters, script sections and lines,
//! audio fragments, story knowledge, and what a language model returns for a
//! script. Fields that only travel between storage and the user interface
//! unread by any rule here (voice speed and pitch) live with those layers.

use vstd::prelude::*;

verus! {

/// An audiobook project.
#[derive(Clone, Debug, PartialEq)]
pub struct Project {
    pub id: String,
    pub name: String,
    pub outline: String,
    pub created_at: String,
    pub updated_at: String,
}

/// A character of a project, with the voice that reads its lines.
#[derive(Clone, Debug, PartialEq)]
pub struct Character {
    pub id: String,
    pub project_id: String,
    pub name: String,
    pub voice_name: String,
    pub tts_model: String,
}

/// The voice settings that decide how a line is synthesised.
#[derive(Clone, Debug, PartialEq)]
pub struct VoiceConfig {
    pub voice_name: String,
    pub tts_model: String,
}

/// A titled section of a script.
#[derive(Clone, Debug, PartialEq)]
pub struct ScriptSection {
    pub id: String,
    pub project_id: String,
    pub title: String,
    pub section_order: i32,
}

/// One line of a script.
#[derive(Clone, Debug, PartialEq)]
pub struct ScriptLine {
    pub id: String,
    pub project_id: String,
    pub line_order: i32,
    pub text: String,
    pub character_id: Option<String>,
    pub gap_after_ms: i32,
    pub instructions: String,
    pub section_id: Option<String>,
}

/// A script line with its character's name and its section's title.
#[derive(Clone, Debug, PartialEq)]
pub struct ScriptLineWithMeta {
    pub id: String,
    pub project_id: String,
    pub line_order: i32,
    pub text: String,
    pub character_id: Option<String>,
    pub gap_after_ms: i32,
    pub instructions: String,
    pub section_id: Option<String>,
    pub character_name: Option<String>,
    pub section_title: Option<String>,
}

/// The audio recorded or synthesised for one script line.
#[derive(Clone, Debug, PartialEq)]
pub struct AudioFragment {
    pub id: String,
    pub project_id: String,
    pub line_id: String,
    pub file_path: String,
    pub duration_ms: Option<i64>,
    pub source: String,
}

/// Progress of batch speech synthesis, reported after each line.
#[derive(Clone, Debug, PartialEq)]
pub struct TtsBatchProgress {
    pub current: usize,
    pub total: usize,
    pub line_id: String,
    pub success: bool,
    pub error: Option<String>,
}

/// One fact of a project's story knowledge base.
#[derive(Clone, Debug, PartialEq)]
pub struct StoryKnowledgeItem {
    pub id: String,
    pub project_id: String,
    pub text: String,
    pub embedding: String,
    pub kb_type: String,
    pub metadata: String,
    pub created_at: String,
}

/// A line of a script as a language model returns it; `character` is a
/// character's name.
#[derive(Clone, Debug, PartialEq)]
pub struct LlmScriptLine {
    pub text: String,
    pub character: Option<String>,
    pub instructions: Option<String>,
    pub gap_ms: Option<u32>,
}

/// A titled section of a script as a language model returns it.
#[derive(Clone, Debug, PartialEq)]
pub struct LlmSection {
    pub title: String,
    pub lines: Vec<LlmScriptLine>,
}

/// A whole script as a language model returns it.
#[derive(Clone, Debug, PartialEq)]
pub struct LlmScriptResponse {
    pub sections: Vec<LlmSection>,
}

} // verus!
