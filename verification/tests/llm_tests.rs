use voxflow::agent::{AgentPlan, ChapterPlan, SuggestedCharacter};
use voxflow::json::{
    auto_complete_json, extract_json, extract_json_given, extract_json_object, find_closing_brace,
    unfenced_reply, FenceRule,
};
use voxflow::models::{Character, LlmScriptLine, LlmScriptResponse, LlmSection};
use voxflow::script::{
    build_script, chat_url, decide_llm_parse, decide_plan_parse, enrich_plan, json_fallback_candidates,
    llm_json_candidates, old_format_response, plan_json_candidates, resolve_character, sse_payloads,
    take_chars,
};

fn make_char(id: &str, name: &str) -> Character {
    Character {
        id: id.to_string(),
        project_id: "p1".to_string(),
        name: name.to_string(),
        voice_name: "Cherry".to_string(),
        tts_model: "qwen3-tts-flash".to_string(),
    }
}

// ---- characters by name ----

#[test]
fn test_resolve_character_found() {
    let chars = vec![make_char("id-1", "Alice"), make_char("id-2", "Bob")];
    assert_eq!(resolve_character(&Some("Bob".to_string()), &chars), Some("id-2".to_string()));
}

#[test]
fn test_resolve_character_not_found() {
    let chars = vec![make_char("id-1", "Alice")];
    assert_eq!(resolve_character(&Some("Charlie".to_string()), &chars), None);
}

#[test]
fn test_resolve_character_none() {
    let chars = vec![make_char("id-1", "Alice")];
    assert_eq!(resolve_character(&None, &chars), None);
}

#[test]
fn resolve_character_takes_the_first_of_two_namesakes() {
    let chars = vec![make_char("id-1", "Alice"), make_char("id-2", "Alice")];
    assert_eq!(resolve_character(&Some("Alice".to_string()), &chars), Some("id-1".to_string()));
}

// ---- JSON helpers ----

#[test]
fn auto_complete_closes_what_is_open() {
    assert_eq!(auto_complete_json(r#"{"a":[1,{"b":"x"#), r#"{"a":[1,{"b":"x"}]}"#);
    assert_eq!(auto_complete_json(r#"[{"a":1"#), r#"[{"a":1}]"#);
    assert_eq!(auto_complete_json(r#"{"a":[1]"#), r#"{"a":[1]}"#);
    assert_eq!(auto_complete_json(r#"{"a":"}]\""#), r#"{"a":"}]\""}"#);
    assert_eq!(auto_complete_json("{}"), "{}");
    assert_eq!(auto_complete_json("]]"), "]]");
}

#[test]
fn auto_completed_json_parses() {
    for s in [r#"[{"a":1"#, r#"{"sections":[{"title":"t","lines":[{"text":"hi"#, r#"{"a":[[1,2],{"b":["#] {
        let done = auto_complete_json(s);
        assert!(serde_json::from_str::<serde_json::Value>(&done).is_ok(), "{}", done);
    }
    assert_eq!(auto_complete_json(r#"{"a":[1]}"#), r#"{"a":[1]}"#);
}

#[test]
fn auto_complete_twice_adds_nothing() {
    for s in [r#"{"k":[1,2"#, r#"{"s":"abc"#, "{", "[[{", r#"{"a":"\"q"#] {
        let once = auto_complete_json(s);
        assert_eq!(auto_complete_json(&once), once);
    }
}

#[test]
fn object_span_from_first_open_to_last_close() {
    assert_eq!(extract_json_object("Sure! {\"a\":1} and {\"b\":2} bye"), Some("{\"a\":1} and {\"b\":2}".to_string()));
    assert_eq!(extract_json_object("no braces"), None);
    assert_eq!(extract_json_object("} backwards {"), None);
}

#[test]
fn closing_brace_minds_strings_and_escapes() {
    assert_eq!(find_closing_brace(r#"{"a":"}"}"#), Some(8));
    assert_eq!(find_closing_brace(r#"{"a":{"b":1}} tail"#), Some(12));
    assert_eq!(find_closing_brace(r#"{"a":"\"}"}"#), Some(10));
    assert_eq!(find_closing_brace("{{}"), None);
    assert_eq!(find_closing_brace("你{好}"), Some(3));
}

#[test]
fn extract_json_whole_reply_or_balanced_object() {
    assert_eq!(extract_json("  {\"a\": 1}  "), Some("{\"a\": 1}".to_string()));
    assert_eq!(extract_json("```json\n{\"a\": [1, 2]}\n```"), Some("{\"a\": [1, 2]}\n".to_string()));
    assert_eq!(extract_json("Here you go: {\"a\": {\"b\": 2}} thanks {x}"), Some("{\"a\": {\"b\": 2}}".to_string()));
    assert_eq!(extract_json("[1, 2, 3]"), Some("[1, 2, 3]".to_string()));
    assert_eq!(extract_json("no json here"), None);
    assert_eq!(extract_json("```{\"a\":1}```"), Some("{\"a\":1}".to_string()));
}

#[test]
fn extract_json_given_the_parse_outcome() {
    assert_eq!(extract_json_given("[1]", true), Some("[1]".to_string()));
    assert_eq!(extract_json_given("x {\"a\":1} y", false), Some("{\"a\":1}".to_string()));
    assert_eq!(extract_json_given("x {\"a\":1", false), None);
}

#[test]
fn fences_by_rule() {
    assert_eq!(unfenced_reply("```json\n{\"a\":1}\n```", FenceRule::Script), "{\"a\":1}\n");
    assert_eq!(unfenced_reply("```json\n{\"a\":1}\n```", FenceRule::Plan), "{\"a\":1}\n");
    assert_eq!(unfenced_reply("```{\"a\":1}```", FenceRule::Script), "{\"a\":1}");
    assert_eq!(unfenced_reply("```{\"a\":1}```", FenceRule::Plan), "```{\"a\":1}```");
    assert_eq!(unfenced_reply("  plain  ", FenceRule::Json), "plain");
}

// ---- script replies ----

fn llm_line(text: &str, character: Option<&str>) -> LlmScriptLine {
    LlmScriptLine { text: text.to_string(), character: character.map(|c| c.to_string()), instructions: None, gap_ms: None }
}

#[test]
fn script_candidates_strip_fence_and_prose() {
    let (json, completed) = llm_json_candidates("```json\nHere: {\"sections\":[{\"title\":\"A\"}\n```");
    assert_eq!(json, "{\"sections\":[{\"title\":\"A\"}");
    assert_eq!(completed, "{\"sections\":[{\"title\":\"A\"}]}");
    let (json, _) = llm_json_candidates("not json at all");
    assert_eq!(json, "not json at all");
}

#[test]
fn script_parse_prefers_sections_then_old_lines() {
    let resp = LlmScriptResponse { sections: vec![LlmSection { title: "第一幕".to_string(), lines: vec![llm_line("台词1", None)] }] };
    assert_eq!(decide_llm_parse("{}", Some(resp.clone()), None, None, None), Ok(resp.clone()));
    assert_eq!(decide_llm_parse("{}", None, Some(resp.clone()), Some(vec![llm_line("x", None)]), None), Ok(resp));

    let old = vec![llm_line("台词1", None), llm_line("台词2", Some("Alice"))];
    let r = decide_llm_parse("{}", None, None, Some(old.clone()), None).unwrap();
    assert_eq!(r.sections.len(), 1);
    assert_eq!(r.sections[0].title, "Main");
    assert_eq!(r.sections[0].lines, old);

    let r = decide_llm_parse("{}", None, None, Some(vec![]), Some(old.clone())).unwrap();
    assert_eq!(r.sections[0].lines, old);
}

#[test]
fn script_parse_error_quotes_the_start() {
    let long = "x".repeat(600);
    let e = decide_llm_parse(&long, None, None, Some(vec![]), None).unwrap_err();
    assert_eq!(e, format!("Cannot parse as sections or lines format, raw: {}", "x".repeat(500)));
    assert_eq!(old_format_response(vec![]), None);
}

#[test]
fn script_from_reply() {
    let chars = vec![make_char("c1", "Alice")];
    let resp = LlmScriptResponse {
        sections: vec![
            LlmSection {
                title: "Act 1".to_string(),
                lines: vec![
                    LlmScriptLine { text: "  Hello  ".to_string(), character: Some("Alice".to_string()), instructions: Some("warm".to_string()), gap_ms: Some(800) },
                    llm_line("   ", Some("Alice")),
                ],
            },
            LlmSection { title: "Act 2".to_string(), lines: vec![llm_line("Bye", Some("Nobody"))] },
        ],
    };
    let (sections, lines) = build_script("p1", &resp, &chars);
    assert_eq!(sections.len(), 2);
    assert_eq!((sections[1].title.as_str(), sections[1].section_order), ("Act 2", 1));
    assert_eq!(lines.len(), 2);
    assert_eq!(lines[0].text, "Hello");
    assert_eq!(lines[0].character_id, Some("c1".to_string()));
    assert_eq!(lines[0].gap_after_ms, 800);
    assert_eq!(lines[0].instructions, "warm");
    assert_eq!(lines[0].section_id, Some(sections[0].id.clone()));
    assert_eq!((lines[1].line_order, lines[1].gap_after_ms), (1, 500));
    assert_eq!(lines[1].character_id, None);
    assert_eq!(lines[1].section_id, Some(sections[1].id.clone()));
    assert_ne!(sections[0].id, sections[1].id);
}

// ---- plan replies ----

fn plan(title: &str) -> AgentPlan {
    AgentPlan {
        chapters: vec![ChapterPlan { title: title.to_string(), estimated_lines: 10, characters: vec!["Alice".to_string()], mood: "calm".to_string() }],
        suggested_characters: vec![
            SuggestedCharacter { name: "Alice".to_string(), role: "lead".to_string(), matched_existing: false, existing_id: None },
            SuggestedCharacter { name: "Eve".to_string(), role: "foil".to_string(), matched_existing: false, existing_id: None },
        ],
        overall_style: "warm".to_string(),
        character_notes: String::new(),
    }
}

#[test]
fn plan_candidates_and_choice() {
    let (stripped, span) = plan_json_candidates("Here is the plan: {\"chapters\": [ {\"title\": \"Ch1\"} and more");
    assert_eq!(stripped, "Here is the plan: {\"chapters\": [ {\"title\": \"Ch1\"} and more");
    let (o, c) = span.unwrap();
    assert_eq!(o, "{\"chapters\": [ {\"title\": \"Ch1\"}");
    assert_eq!(c, "{\"chapters\": [ {\"title\": \"Ch1\"}]}");

    assert_eq!(decide_plan_parse("s", None, Some(plan("Ch1")), Some(plan("Ch2"))), Ok(plan("Ch1")));
    assert_eq!(decide_plan_parse("s", None, None, Some(plan("Ch2"))), Ok(plan("Ch2")));
    assert_eq!(
        decide_plan_parse(&"y".repeat(400), None, None, None),
        Err(format!("Cannot parse AgentPlan from: {}", "y".repeat(300)))
    );
}

#[test]
fn plan_characters_matched_to_project() {
    let chars = vec![make_char("id-1", "Alice"), make_char("id-9", "Alice")];
    let p = enrich_plan(plan("Ch1"), &chars);
    assert_eq!(p.suggested_characters[0].existing_id, Some("id-9".to_string()));
    assert!(p.suggested_characters[0].matched_existing);
    assert_eq!(p.suggested_characters[1].existing_id, None);
    assert!(!p.suggested_characters[1].matched_existing);
    assert_eq!(p.chapters, plan("Ch1").chapters);
}

#[test]
fn typed_json_fallback() {
    assert_eq!(
        json_fallback_candidates("ok: {\"a\": [1"),
        Err("No JSON found in response".to_string())
    );
    assert_eq!(
        json_fallback_candidates("{\"a\": [1]}"),
        Ok(("{\"a\": [1]}".to_string(), "{\"a\": [1]}".to_string()))
    );
}

// ---- streaming ----

#[test]
fn stream_payloads_and_addresses() {
    let chunk = "data: {\"a\":1}\n\n  data: [DONE]\n: comment\ndata: x  \r\n";
    assert_eq!(sse_payloads(chunk), vec!["{\"a\":1}".to_string(), "x".to_string()]);
    assert_eq!(chat_url("https://api.example.com/v1//"), "https://api.example.com/v1/chat/completions");
    assert_eq!(take_chars("你好世界", 2), "你好");
    assert_eq!(take_chars("ab", 5), "ab");
}

#[test]
fn object_span_twice_is_once() {
    for t in ["Sure! {\"a\":1} and {\"b\":2} bye", "x{}y", "{\"k\":\"}\"}"] {
        let once = extract_json_object(t).unwrap();
        assert_eq!(extract_json_object(&once), Some(once.clone()));
    }
}

#[test]
fn prose_and_fence_do_not_change_the_json_read() {
    let j = r#"{"sections":[{"title":"A","lines":[]}]}"#;
    let (plain, _) = llm_json_candidates(j);
    let (prose, _) = llm_json_candidates(&format!("Here is the script: {} Hope it helps.", j));
    let (fenced, _) = llm_json_candidates(&format!("```json\n{}\n```", j));
    assert_eq!(plain, j);
    assert_eq!(prose, j);
    assert_eq!(fenced, j);
}
