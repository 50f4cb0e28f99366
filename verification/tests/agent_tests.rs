use voxflow::agent::{
    cancelled_error, tool_failure, AgentPlan, AgentTurns, ChapterPlan, RevisionRequest, ToolCallAccumulator,
    ToolCallFragment, TurnStart, MAX_AGENT_TURNS,
};
use voxflow::cli::{llm_opts, text_source, TextSource};
use voxflow::error::AppError;
use voxflow::events::{EventFields, LogEmitter, NoOpEmitter};
use voxflow::fmt::decimal_text;
use voxflow::models::Character;
use voxflow::prompts::{
    build_agent_system_prompt, build_outline_prompt, build_script_prompt, build_tool_script_prompt,
    character_extraction_prompt, character_names, plan_total_lines, revision_instructions,
};

fn make_char(id: &str, name: &str) -> Character {
    Character {
        id: id.to_string(),
        project_id: "p1".to_string(),
        name: name.to_string(),
        voice_name: "Cherry".to_string(),
        tts_model: "qwen3-tts-flash".to_string(),
    }
}

fn chapter(title: &str, n: u32, chars: &[&str]) -> ChapterPlan {
    ChapterPlan {
        title: title.to_string(),
        estimated_lines: n,
        characters: chars.iter().map(|c| c.to_string()).collect(),
        mood: "tense".to_string(),
    }
}

fn plan() -> AgentPlan {
    AgentPlan {
        chapters: vec![chapter("Ch1", 12, &["Alice", "Bob"]), chapter("Ch2", 8, &[])],
        suggested_characters: vec![],
        overall_style: "noir".to_string(),
        character_notes: String::new(),
    }
}

// ---- turns ----

#[test]
fn agent_turns_run_out_after_the_limit() {
    let mut t = AgentTurns::new();
    for _ in 0..MAX_AGENT_TURNS {
        assert_eq!(t.begin_turn(false), TurnStart::Request);
    }
    assert_eq!(t.turn, MAX_AGENT_TURNS);
    assert_eq!(t.begin_turn(false), TurnStart::Finished);
    let mut c = AgentTurns::new();
    assert_eq!(c.begin_turn(true), TurnStart::Cancelled);
    assert_eq!(c.turn, 0);
    assert_eq!(cancelled_error(), AppError::LlmService("Cancelled".to_string()));
}

#[test]
fn first_failed_tool_ends_the_run() {
    let names = vec!["outline_analysis".to_string(), "story_recall".to_string(), "story_memory".to_string()];
    let ok: Vec<Result<String, AppError>> = vec![Ok("a".to_string()), Ok("b".to_string()), Ok("c".to_string())];
    assert_eq!(tool_failure(&names, &ok), None);
    let failed = vec![
        Ok("a".to_string()),
        Err(AppError::Database("locked".to_string())),
        Err(AppError::Config("x".to_string())),
    ];
    assert_eq!(
        tool_failure(&names, &failed),
        Some(AppError::LlmService("Tool 'story_recall' failed: 数据库错误: locked".to_string()))
    );
}

// ---- streamed tool calls ----

fn frag(index: Option<u64>, id: Option<&str>, name: Option<&str>, args: Option<&str>) -> ToolCallFragment {
    ToolCallFragment {
        index,
        id: id.map(|s| s.to_string()),
        name: name.map(|s| s.to_string()),
        arguments: args.map(|s| s.to_string()),
    }
}

#[test]
fn tool_call_fragments_gathered() {
    let mut acc = ToolCallAccumulator::new();
    acc.add(&frag(Some(0), Some("call_1"), Some("story_recall"), Some("{\"query\":")));
    acc.add(&frag(Some(1), Some("call_2"), Some(""), None));
    acc.add(&frag(Some(0), Some(""), None, Some("\"Alice\"}")));
    acc.add(&frag(Some(1), None, Some("story_memory"), Some("{}")));
    acc.add(&frag(None, None, None, Some(" ")));
    acc.add(&frag(Some(2), None, Some("outline_analysis"), Some("{}")));
    let calls = acc.finish();
    assert_eq!(calls.len(), 2);
    assert_eq!(calls[0].call_id, "call_1");
    assert_eq!(calls[0].name, "story_recall");
    assert_eq!(calls[0].arguments, "{\"query\":\"Alice\"} ");
    assert_eq!(calls[1].call_id, "call_2");
    assert_eq!(calls[1].name, "story_memory");
    assert_eq!(calls[1].index, 1);
}

// ---- prompts ----

#[test]
fn agent_prompt_lists_characters_plan_and_extra() {
    let chars = vec![make_char("c1", "Alice"), make_char("c2", "Bob")];
    let p = plan();
    let prompt = build_agent_system_prompt(&chars, Some(&p), Some("Keep it short"));
    assert!(prompt.contains("AVAILABLE CHARACTERS:\nAvailable characters: Alice, Bob\n\n"));
    assert!(prompt.contains(
        "Confirmed plan:\n- \"Ch1\" ~12 lines, mood: tense, characters: Alice, Bob\n- \"Ch2\" ~8 lines, mood: tense, characters: unspecified\n\nTotal estimated lines: 20\n\n"
    ));
    assert!(prompt.contains("ADDITIONAL INSTRUCTIONS: Keep it short\nYou have tools available"));
    let bare = build_agent_system_prompt(&[], None, Some("   "));
    assert!(bare.contains("(No characters defined yet — use character names freely)\n\n\n\nYou have tools"));
    assert!(!bare.contains("ADDITIONAL"));
}

#[test]
fn other_prompts() {
    let chars = vec![make_char("c1", "Alice")];
    let p = plan();
    assert_eq!(plan_total_lines(&p.chapters), 20);
    assert_eq!(character_names(&chars), vec!["Alice".to_string()]);
    assert!(build_outline_prompt(&chars, false).contains(
        "\nExisting project characters: Alice\nTry to match suggested characters to these existing ones when possible.\nRequirements:"
    ));
    assert!(!build_outline_prompt(&[], true).contains("Existing project characters"));
    assert!(character_extraction_prompt().starts_with("You are a character extraction assistant."));
    assert!(!build_script_prompt(&chars, Some(&p), None).is_empty());
    assert!(!build_tool_script_prompt(&chars, Some(&p), Some("more drama")).is_empty());
}

#[test]
fn revision_texts() {
    let p = plan();
    let all = RevisionRequest { instructions: "Darker".to_string(), section_indices: None };
    assert_eq!(
        revision_instructions(&all, Some(&p)),
        "REVISION REQUEST: Darker\nOnly modify the requested sections. Keep everything else unchanged."
    );
    let some = RevisionRequest { instructions: "Darker".to_string(), section_indices: Some(vec![1, 5]) };
    assert_eq!(
        revision_instructions(&some, Some(&p)),
        "REVISION REQUEST: Darker\n\nRevise these sections:\n- \"Ch2\"\nOnly modify the requested sections. Keep everything else unchanged."
    );
    assert_eq!(
        revision_instructions(&some, None),
        "REVISION REQUEST: Darker\n\nRevise sections at indices: [1, 5]\nOnly modify the requested sections. Keep everything else unchanged."
    );
}

// ---- command line ----

#[test]
fn command_line_settings() {
    assert_eq!(
        llm_opts(Some("https://e".to_string()), Some("k".to_string()), None),
        Ok(("https://e".to_string(), "k".to_string(), "qwen-plus".to_string()))
    );
    assert_eq!(
        llm_opts(Some("https://e".to_string()), Some("k".to_string()), Some("qwen-max".to_string())),
        Ok(("https://e".to_string(), "k".to_string(), "qwen-max".to_string()))
    );
    assert_eq!(
        llm_opts(None, Some("k".to_string()), None),
        Err("Missing --endpoint (or set VOXFLOW_API_ENDPOINT)".to_string())
    );
    assert_eq!(
        llm_opts(Some("https://e".to_string()), None, None),
        Err("Missing --key (or set VOXFLOW_API_KEY)".to_string())
    );
}

#[test]
fn command_text_sources() {
    assert_eq!(text_source(Some("hello"), Some("/f.txt")), Ok(TextSource::File("/f.txt".to_string())));
    assert_eq!(text_source(Some("@/tmp/outline.md"), None), Ok(TextSource::File("/tmp/outline.md".to_string())));
    assert_eq!(text_source(Some("hello"), None), Ok(TextSource::Inline("hello".to_string())));
    assert_eq!(text_source(Some(""), None), Ok(TextSource::Inline(String::new())));
    assert_eq!(text_source(None, None), Err("No text or file provided".to_string()));
}

// ---- events ----

fn fields() -> EventFields {
    EventFields { step: None, status: None, project_id: None, success: None, text: None }
}

#[test]
fn event_summaries() {
    let log = LogEmitter { verbose: false };
    let _quiet = NoOpEmitter;
    let step = |status: &str| EventFields { step: Some("analysis".to_string()), status: Some(status.to_string()), ..fields() };
    assert_eq!(log.summary_line("agent-step", &step("started")), Some("  [started] analysis".to_string()));
    assert_eq!(log.summary_line("agent-step", &step("completed")), Some("  [done] analysis".to_string()));
    assert_eq!(log.summary_line("agent-step", &step("failed")), Some("  [failed] analysis".to_string()));
    assert_eq!(log.summary_line("agent-step", &fields()), None);
    assert_eq!(
        log.summary_line("agent-pipeline-started", &EventFields { project_id: Some("p1".to_string()), ..fields() }),
        Some("Agent pipeline started for project: p1".to_string())
    );
    assert_eq!(
        log.summary_line("agent-pipeline-complete", &EventFields { success: Some(true), ..fields() }),
        Some("Agent pipeline completed successfully.".to_string())
    );
    assert_eq!(
        log.summary_line("agent-pipeline-complete", &EventFields { success: Some(false), ..fields() }),
        Some("Agent pipeline failed.".to_string())
    );
    assert_eq!(
        log.summary_line("llm-error", &EventFields { text: Some("boom".to_string()), ..fields() }),
        Some("[error] boom".to_string())
    );
    assert_eq!(log.summary_line("llm-token", &EventFields { text: Some("x".to_string()), ..fields() }), None);
}

// ---- errors and numbers ----

#[test]
fn error_messages() {
    let cases = vec![
        (AppError::Database("a".to_string()), "数据库错误: a"),
        (AppError::FileSystem("a".to_string()), "文件系统错误: a"),
        (AppError::LlmService("a".to_string()), "LLM 服务错误: a"),
        (AppError::TtsService("a".to_string()), "TTS 服务错误: a"),
        (AppError::FFmpeg("a".to_string()), "FFmpeg 错误: a"),
        (AppError::Audio("a".to_string()), "音频播放错误: a"),
        (AppError::Config("a".to_string()), "配置错误: a"),
        (AppError::Serialization("a".to_string()), "IPC 序列化错误: a"),
    ];
    for (e, text) in cases {
        assert_eq!(e.message(), text);
    }
}

#[test]
fn decimal_numbers() {
    assert_eq!(decimal_text(0), "0");
    assert_eq!(decimal_text(1234567), "1234567");
    assert_eq!(decimal_text(u128::MAX), u128::MAX.to_string());
}
