use voxflow::error::AppError;
use voxflow::models::{Character, ScriptLine, ScriptSection, StoryKnowledgeItem};
use voxflow::tools::{
    convert_generated_script, correction_message, default_top_k, dispatch_tool, extraction_tool_report,
    invalid_args_error, kb_chunks, kb_entry_metadata, kb_entry_text, memory_added_response,
    memory_deleted_response, memory_item, memory_list_response, memory_tool_report, outline_retry,
    outline_tool_report, plan_memory_action, recall_count, recall_kind_filter, recall_tool_report,
    classify_role, role_voice, role_voice_reason, script_retry, script_tool_report, tool_result_content,
    validate_script, CharacterExtractionTool, GeneratedLine, GeneratedSection, KbChunk, MemoryAction,
    OutlineAnalysisTool, ParseRetry, RoleVoice, ScriptGenerationResponse, ScriptGenerationTool,
    StoryMemoryArgs, StoryMemoryTool, StoryRecallTool, ToolKind,
};

fn make_char(id: &str, name: &str) -> Character {
    Character {
        id: id.to_string(),
        project_id: "p1".to_string(),
        name: name.to_string(),
        voice_name: "Cherry".to_string(),
        tts_model: "qwen3-tts-flash".to_string(),
    }
}

#[test]
fn tool_names_and_dispatch() {
    assert_eq!(OutlineAnalysisTool::name(), "outline_analysis");
    assert_eq!(CharacterExtractionTool::name(), "character_extraction");
    assert_eq!(ScriptGenerationTool::name(), "script_generation");
    assert_eq!(StoryRecallTool::name(), "story_recall");
    assert_eq!(StoryMemoryTool::name(), "story_memory");
    assert!(StoryMemoryTool::description().starts_with("Store or list important story facts"));
    assert!(!OutlineAnalysisTool::description().is_empty());
    assert!(!CharacterExtractionTool::description().is_empty());
    assert!(!ScriptGenerationTool::description().is_empty());
    assert!(!StoryRecallTool::description().is_empty());

    for (name, kind) in [
        (OutlineAnalysisTool::name(), ToolKind::OutlineAnalysis),
        (CharacterExtractionTool::name(), ToolKind::CharacterExtraction),
        (ScriptGenerationTool::name(), ToolKind::ScriptGeneration),
        (StoryRecallTool::name(), ToolKind::StoryRecall),
        (StoryMemoryTool::name(), ToolKind::StoryMemory),
    ] {
        assert_eq!(dispatch_tool(name), Ok(kind));
    }
    assert_eq!(dispatch_tool("web_search"), Err(AppError::LlmService("Unknown tool: web_search".to_string())));
}

#[test]
fn tool_reports() {
    assert_eq!(
        invalid_args_error("story_recall", "missing field `query`"),
        AppError::LlmService("Invalid story_recall args: missing field `query`".to_string())
    );
    assert_eq!(outline_tool_report("{}"), "Plan generated successfully:\n{}");
    assert_eq!(extraction_tool_report(3, "[]"), "Extracted 3 characters:\n[]");
    assert_eq!(script_tool_report("p9"), "Script generated and saved for project p9.");
    assert_eq!(recall_tool_report(&[]), "No relevant knowledge found.");
    assert_eq!(
        recall_tool_report(&["[0.900] plot\nA".to_string(), "[0.500] character\nB".to_string()]),
        "Found 2 results:\n\n[0.900] plot\nA\n\n[0.500] character\nB"
    );
    assert_eq!(tool_result_content(&Ok("fine".to_string())), "fine");
    assert_eq!(
        tool_result_content(&Err(AppError::Database("locked".to_string()))),
        "Error: 数据库错误: locked"
    );
}

// ---- generated scripts ----

fn gl(text: &str, who: &str) -> GeneratedLine {
    GeneratedLine { text: text.to_string(), character: who.to_string(), gap_after_ms: 400 }
}

#[test]
fn validation_counts_and_warnings() {
    let chars = vec![make_char("c1", "Alice")];
    let sections = vec![
        GeneratedSection { title: "One".to_string(), lines: vec![gl("a", "Alice"), gl("b", "Bob"), gl("c", "Bob"), gl("d", "Eve")] },
        GeneratedSection { title: "Two".to_string(), lines: vec![gl("e", "Alice")] },
        GeneratedSection { title: "Three".to_string(), lines: vec![] },
    ];
    let v = validate_script(&sections, &chars);
    assert_eq!(v.total_lines, 5);
    assert_eq!(v.total_sections, 3);
    assert_eq!(v.unmatched_characters, vec!["Bob".to_string(), "Eve".to_string()]);
    assert_eq!(v.section_stats[0].line_count, 4);
    assert_eq!(v.section_stats[0].characters, vec!["Alice".to_string(), "Bob".to_string(), "Eve".to_string()]);
    assert_eq!(
        v.warnings,
        vec![
            "Section 'Two' has only 1 lines — may be too short".to_string(),
            "Section 'Three' has no lines".to_string(),
            "Section 'Three' has only 0 lines — may be too short".to_string(),
            "2 characters not matched to existing: Bob, Eve".to_string(),
        ]
    );
}

#[test]
fn validation_of_an_empty_script() {
    let v = validate_script(&[], &[]);
    assert_eq!(v.total_lines, 0);
    assert_eq!(
        v.warnings,
        vec!["Script has no lines at all".to_string(), "Script has no sections at all".to_string()]
    );
}

#[test]
fn generated_script_conversion() {
    let chars = vec![make_char("c1", "Alice")];
    let resp = ScriptGenerationResponse {
        sections: vec![
            GeneratedSection { title: "One".to_string(), lines: vec![gl("a", "Alice"), gl("b", "Bob"), gl("c", "Alice")] },
            GeneratedSection { title: "Two".to_string(), lines: vec![gl("d", "Bob")] },
        ],
        narration_style: "calm".to_string(),
    };
    let (sections, lines, speakers) = convert_generated_script("p1", &resp, &chars);
    assert_eq!(sections.len(), 2);
    assert_eq!(lines.len(), 4);
    assert_eq!(lines[0].character_id, Some("c1".to_string()));
    assert_eq!(lines[1].character_id, None);
    assert_eq!(lines[0].section_id, Some(sections[0].id.clone()));
    assert_eq!(lines[2].section_id, Some(sections[0].id.clone()));
    assert_eq!(lines[3].section_id, Some(sections[1].id.clone()));
    assert_eq!(lines[3].line_order, 3);
    assert_eq!(lines[2].gap_after_ms, 400);
    assert_eq!(speakers, vec![vec!["Alice".to_string(), "Bob".to_string()], vec!["Bob".to_string()]]);
}

// ---- story memory ----

fn mem_args(action: &str, text: Option<&str>, kb_type: Option<&str>, item: Option<&str>) -> StoryMemoryArgs {
    StoryMemoryArgs {
        action: action.to_string(),
        text: text.map(|s| s.to_string()),
        kb_type: kb_type.map(|s| s.to_string()),
        item_id: item.map(|s| s.to_string()),
    }
}

#[test]
fn memory_actions() {
    assert_eq!(
        plan_memory_action(&mem_args("add", Some("Alice is Bob's sister"), None, None)),
        Ok(MemoryAction::Add { text: "Alice is Bob's sister".to_string(), kb_type: "plot".to_string() })
    );
    assert_eq!(
        plan_memory_action(&mem_args("add", Some("x"), Some("character"), None)),
        Ok(MemoryAction::Add { text: "x".to_string(), kb_type: "character".to_string() })
    );
    assert_eq!(plan_memory_action(&mem_args("list", None, None, None)), Ok(MemoryAction::List));
    assert_eq!(
        plan_memory_action(&mem_args("delete", None, None, Some("k1"))),
        Ok(MemoryAction::Delete { item_id: "k1".to_string() })
    );
    assert_eq!(
        plan_memory_action(&mem_args("add", None, None, None)),
        Err(AppError::LlmService("'text' is required for action 'add'".to_string()))
    );
    assert_eq!(
        plan_memory_action(&mem_args("delete", None, None, None)),
        Err(AppError::LlmService("'item_id' is required for action 'delete'".to_string()))
    );
    assert_eq!(
        plan_memory_action(&mem_args("forget", None, None, None)),
        Err(AppError::LlmService("Unknown action for story_memory: forget".to_string()))
    );
}

#[test]
fn memory_responses_and_report() {
    let item = memory_item("k1".to_string(), "p1", "fact", "[0.1]".to_string(), "plot", "2024-01-01".to_string());
    assert_eq!(item.metadata, "{}");
    assert_eq!(item.project_id, "p1");
    let added = memory_added_response("fact");
    assert_eq!(added.message, "Stored: \"fact\"");
    assert_eq!(memory_tool_report(&added), "Stored: \"fact\"");
    let list = memory_list_response(vec![
        item.clone(),
        StoryKnowledgeItem { id: "k2".to_string(), kb_type: "character".to_string(), text: "Bob".to_string(), ..item.clone() },
    ]);
    assert_eq!(list.message, "2 memories stored");
    assert_eq!(
        memory_tool_report(&list),
        "2 memories stored\n\n- [plot] k1: fact\n- [character] k2: Bob"
    );
    let deleted = memory_deleted_response("k1");
    assert_eq!((deleted.action.as_str(), deleted.message.as_str()), ("delete", "Deleted memory: k1"));
}

#[test]
fn recall_settings() {
    assert_eq!(default_top_k(), 5);
    assert_eq!(recall_count(0), 5);
    assert_eq!(recall_count(8), 8);
    assert_eq!(recall_kind_filter(&Some("any".to_string())), None);
    assert_eq!(recall_kind_filter(&Some("plot".to_string())), Some("plot".to_string()));
    assert_eq!(recall_kind_filter(&None), None);
}

// ---- knowledge base of a script ----

fn section(id: &str, title: &str) -> ScriptSection {
    ScriptSection { id: id.to_string(), project_id: "p1".to_string(), title: title.to_string(), section_order: 0 }
}

fn line_in(text: &str, sec: Option<&str>) -> ScriptLine {
    ScriptLine {
        id: text.to_string(),
        project_id: "p1".to_string(),
        line_order: 0,
        text: text.to_string(),
        character_id: None,
        gap_after_ms: 0,
        instructions: String::new(),
        section_id: sec.map(|s| s.to_string()),
    }
}

#[test]
fn knowledge_base_entries() {
    let sections = vec![section("s1", "Start"), section("s2", "Empty"), section("s3", "End")];
    let lines = vec![line_in("a", Some("s1")), line_in("b", Some("s3")), line_in("c", Some("s1")), line_in("d", None)];
    let chunks = kb_chunks(&sections, &lines);
    assert_eq!(
        chunks,
        vec![
            KbChunk { section_id: "s1".to_string(), section_title: "Start".to_string(), text: "a\nc".to_string(), line_count: 2 },
            KbChunk { section_id: "s3".to_string(), section_title: "End".to_string(), text: "b".to_string(), line_count: 1 },
        ]
    );
    assert_eq!(kb_entry_text(&chunks[0]), "[Start] a\nc");
    assert_eq!(
        kb_entry_metadata(&KbChunk { section_id: "s\"1".to_string(), section_title: "第一章".to_string(), text: String::new(), line_count: 2 }),
        "{\"line_count\":2,\"section_id\":\"s\\\"1\",\"section_title\":\"第一章\"}"
    );
}

// ---- voices by role ----

#[test]
fn voices_by_role() {
    assert_eq!(role_voice("Young Hero", "Tom", ""), RoleVoice::Young);
    assert_eq!(role_voice("ELDERLY sage", "Li", ""), RoleVoice::Elderly);
    assert_eq!(role_voice("主要反派", "X", ""), RoleVoice::Antagonist);
    assert_eq!(role_voice("旁白", "N", ""), RoleVoice::Narrator);
    assert_eq!(role_voice("friend", "ALICE", "alice likes tea"), RoleVoice::MentionedInNotes);
    assert_eq!(role_voice("friend", "Bob", "alice likes tea"), RoleVoice::Plain);
    assert_eq!(classify_role("the young lord", "x", ""), RoleVoice::Young);
    assert_eq!(classify_role("Young lord", "x", ""), RoleVoice::Plain);
    assert_eq!(classify_role("friend", "bo", "bob and ann"), RoleVoice::MentionedInNotes);
    assert_eq!(role_voice_reason(&RoleVoice::Narrator), "Narrator — neutral, clear pacing");
    assert_eq!(role_voice_reason(&RoleVoice::Plain), "Default pacing and pitch");
}

// ---- retries ----

#[test]
fn parse_retries() {
    assert_eq!(
        correction_message("EOF"),
        "Your previous response could not be parsed as valid JSON. Error: EOF\nPlease return ONLY valid JSON with no markdown code fences, no surrounding text."
    );
    assert_eq!(outline_retry(1, "e"), ParseRetry::Retry);
    assert_eq!(outline_retry(2, "e"), ParseRetry::Retry);
    assert_eq!(
        outline_retry(3, "bad"),
        ParseRetry::GiveUp(AppError::LlmService("Failed to parse outline after 3 attempts: bad".to_string()))
    );
    assert_eq!(
        script_retry(3, "bad"),
        ParseRetry::GiveUp(AppError::LlmService("Failed to parse script after 3 attempts: bad".to_string()))
    );
}

#[test]
fn conversion_keeps_every_validated_line() {
    let chars = vec![make_char("c1", "Alice")];
    let sections = vec![
        GeneratedSection { title: "One".to_string(), lines: vec![gl("a", "Alice"), gl("b", "Zed")] },
        GeneratedSection { title: "Two".to_string(), lines: vec![] },
        GeneratedSection { title: "Three".to_string(), lines: vec![gl("c", "Zed"), gl("d", "Yan"), gl("e", "Alice")] },
    ];
    let v = validate_script(&sections, &chars);
    let resp = ScriptGenerationResponse { sections: sections.clone(), narration_style: String::new() };
    let (_, lines, _) = convert_generated_script("p1", &resp, &chars);
    assert_eq!(lines.len(), v.total_lines);
    assert_eq!(v.unmatched_characters, vec!["Zed".to_string(), "Yan".to_string()]);
}

#[test]
fn generated_ids_are_fresh_per_project() {
    let chars = vec![make_char("c1", "Alice")];
    let resp = ScriptGenerationResponse {
        sections: vec![GeneratedSection { title: "One".to_string(), lines: vec![gl("a", "Alice"), gl("b", "Bob")] }],
        narration_style: "calm".to_string(),
    };
    let (s1, l1, _) = convert_generated_script("p1", &resp, &chars);
    let (s2, l2, _) = convert_generated_script("p2", &resp, &chars);
    let mut ids: Vec<String> = s1.iter().chain(s2.iter()).map(|s| s.id.clone()).collect();
    ids.extend(l1.iter().chain(l2.iter()).map(|l| l.id.clone()));
    let n = ids.len();
    ids.sort();
    ids.dedup();
    assert_eq!(ids.len(), n);
    assert!(l2.iter().all(|l| l.project_id == "p2"));
}
