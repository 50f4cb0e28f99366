use voxflow::synth::{
    batch_model, batch_progress, build_audio_path, is_http_model, join_path, plan_batch_tts, plan_tts,
    resolve_model, BatchItem, BatchOutcome, TtsRoute,
};
use voxflow::models::{Character, ScriptLine, VoiceConfig};
use voxflow::tts::{
    group_chunks_into_sessions, split_sentence_with_boundaries, split_text_for_tts, TtsChunk,
    PARAGRAPH_PAUSE_MS, SENTENCE_PAUSE_MS, TTS_CHUNK_MAX_CHARS,
};

// ---- commands/tts.rs ----

#[test]
fn tts_test_build_audio_path() {
    let p = build_audio_path("/data", "proj-1", "line-42");
    assert_eq!(p, "/data/projects/proj-1/audio/line-42.mp3");
}

#[test]
fn tts_test_split_short_text_no_split() {
    let text = "你好世界";
    let chunks = split_text_for_tts(text);
    assert_eq!(chunks.len(), 1);
    assert_eq!(chunks[0].text, "你好世界");
    assert_eq!(chunks[0].pause_ms, 0);
}

#[test]
fn tts_test_split_text_at_boundary() {
    let text = "A".repeat(200);
    let chunks = split_text_for_tts(&text);
    assert_eq!(chunks.len(), 1);
    assert_eq!(chunks[0].text.len(), 200);
}

#[test]
fn tts_test_split_text_over_limit() {
    let text = "A".repeat(500);
    let chunks = split_text_for_tts(&text);
    assert!(chunks.len() > 1);
    for c in &chunks {
        assert!(
            c.text.len() <= TTS_CHUNK_MAX_CHARS,
            "chunk len={} exceeds {}",
            c.text.len(),
            TTS_CHUNK_MAX_CHARS
        );
    }
}

#[test]
fn tts_test_split_by_paragraph_short_text() {
    let text = "第一段文字。\n第二段文字。";
    let chunks = split_text_for_tts(text);
    assert_eq!(chunks.len(), 1);
}

#[test]
fn tts_test_split_long_paragraph_by_sentence() {
    let text = "他今天去了公园。天气很好。很多人在跑步。小鸟在树上唱歌。孩子们很开心。".repeat(8);
    let chunks = split_text_for_tts(&text);
    assert!(chunks.len() >= 1);
    for c in &chunks {
        assert!(
            c.text.chars().count() <= TTS_CHUNK_MAX_CHARS,
            "chunk len={} exceeds {}",
            c.text.chars().count(),
            TTS_CHUNK_MAX_CHARS
        );
    }
}

#[test]
fn tts_test_split_mixed_paragraphs() {
    let long_para = "他今天去了公园。".repeat(60);
    let text = format!("{}\n简短段落。\n{}", long_para, "Another short one.");
    let chunks = split_text_for_tts(&text);
    assert!(chunks.len() > 1);
    for c in &chunks {
        assert!(
            c.text.chars().count() <= TTS_CHUNK_MAX_CHARS,
            "chunk len={} exceeds {}",
            c.text.chars().count(),
            TTS_CHUNK_MAX_CHARS
        );
    }
}

#[test]
fn tts_test_split_empty_text() {
    let chunks = split_text_for_tts("");
    assert!(chunks.is_empty());
}

#[test]
fn tts_test_split_preserves_sentence_boundary() {
    let text = "第一句。第二句。第三句。第四句。第五句。第六句。第七句。第八句。第九句。第十句。";
    let chunks = split_text_for_tts(text);
    let boundaries: &[char] = &['.', '!', '?', '。', '！', '？', '；', ';'];
    for (i, c) in chunks.iter().enumerate() {
        if i < chunks.len() - 1 {
            let last_char = c.text.chars().last().unwrap();
            assert!(
                boundaries.contains(&last_char),
                "chunk {} ends with '{}' not a sentence boundary",
                i,
                last_char
            );
        }
    }
}

#[test]
fn tts_test_pause_different_for_paragraph_vs_sentence() {
    let long_para = "他今天去了公园。".repeat(60);
    let text = format!("{}\n简短段落。", long_para);
    let chunks = split_text_for_tts(&text);
    assert!(chunks.len() >= 2);
    let last = chunks.last().unwrap();
    assert_eq!(last.pause_ms, 0);
    for c in chunks.iter().take(chunks.len() - 1) {
        assert!(c.pause_ms > 0, "non-final chunk should have pause");
    }
}

// ---- commands/tts/utils.rs ----

#[test]
fn utils_test_build_audio_path() {
    let p = build_audio_path("/data", "proj-1", "line-42");
    assert_eq!(p, "/data/projects/proj-1/audio/line-42.mp3");
}

#[test]
fn utils_test_split_short_text_no_split() {
    let text = "你好世界";
    let chunks = split_text_for_tts(text);
    assert_eq!(chunks.len(), 1);
    assert_eq!(chunks[0].text, "你好世界");
    assert_eq!(chunks[0].pause_ms, 0);
}

#[test]
fn utils_test_split_text_at_boundary() {
    let text = "A".repeat(200);
    let chunks = split_text_for_tts(&text);
    assert_eq!(chunks.len(), 1);
    assert_eq!(chunks[0].text.len(), 200);
}

#[test]
fn utils_test_split_text_over_limit() {
    let text = "A".repeat(500);
    let chunks = split_text_for_tts(&text);
    assert!(chunks.len() > 1);
    for c in &chunks {
        assert!(
            c.text.len() <= TTS_CHUNK_MAX_CHARS,
            "chunk len={} exceeds {}",
            c.text.len(),
            TTS_CHUNK_MAX_CHARS
        );
    }
}

#[test]
fn utils_test_split_by_paragraph_short_text() {
    let text = "第一段文字。\n第二段文字。";
    let chunks = split_text_for_tts(text);
    assert_eq!(chunks.len(), 1);
}

#[test]
fn utils_test_split_long_paragraph_by_sentence() {
    let text = "他今天去了公园。天气很好。很多人在跑步。小鸟在树上唱歌。孩子们很开心。".repeat(8);
    let chunks = split_text_for_tts(&text);
    assert!(chunks.len() >= 1);
    for c in &chunks {
        assert!(
            c.text.chars().count() <= TTS_CHUNK_MAX_CHARS,
            "chunk len={} exceeds {}",
            c.text.chars().count(),
            TTS_CHUNK_MAX_CHARS
        );
    }
}

#[test]
fn utils_test_split_mixed_paragraphs() {
    let long_para = "他今天去了公园。".repeat(60);
    let text = format!("{}\n简短段落。\n{}", long_para, "Another short one.");
    let chunks = split_text_for_tts(&text);
    assert!(chunks.len() > 1);
    for c in &chunks {
        assert!(
            c.text.chars().count() <= TTS_CHUNK_MAX_CHARS,
            "chunk len={} exceeds {}",
            c.text.chars().count(),
            TTS_CHUNK_MAX_CHARS
        );
    }
}

#[test]
fn utils_test_split_empty_text() {
    let chunks = split_text_for_tts("");
    assert!(chunks.is_empty());
}

#[test]
fn utils_test_split_preserves_sentence_boundary() {
    let text = "第一句。第二句。第三句。第四句。第五句。第六句。第七句。第八句。第九句。第十句。";
    let chunks = split_text_for_tts(text);
    let boundaries: &[char] = &['.', '!', '?', '。', '！', '？', '；', ';'];
    for (i, c) in chunks.iter().enumerate() {
        if i < chunks.len() - 1 {
            let last_char = c.text.chars().last().unwrap();
            assert!(
                boundaries.contains(&last_char),
                "chunk {} ends with '{}' not a sentence boundary",
                i,
                last_char
            );
        }
    }
}

#[test]
fn utils_test_pause_different_for_paragraph_vs_sentence() {
    let long_para = "他今天去了公园。".repeat(60);
    let text = format!("{}\n简短段落。", long_para);
    let chunks = split_text_for_tts(&text);
    assert!(chunks.len() >= 2);
    let last = chunks.last().unwrap();
    assert_eq!(last.pause_ms, 0);
    for c in chunks.iter().take(chunks.len() - 1) {
        assert!(c.pause_ms > 0, "non-final chunk should have pause");
    }
}

// ---- chunking, exact values ----

#[test]
fn chunks_of_a_long_paragraph_then_a_short_one() {
    let long_para = "他今天去了公园。".repeat(30);
    let text = format!("  {}\n\n简短段落。  ", long_para);
    let chunks = split_text_for_tts(&text);
    let texts: Vec<String> = chunks.iter().map(|c| c.text.clone()).collect();
    let pauses: Vec<u32> = chunks.iter().map(|c| c.pause_ms).collect();
    assert_eq!(
        texts,
        vec!["他今天去了公园。".repeat(25), "他今天去了公园。".repeat(5), "简短段落。".to_string()]
    );
    assert_eq!(pauses, vec![SENTENCE_PAUSE_MS, PARAGRAPH_PAUSE_MS, 0]);
}

#[test]
fn short_paragraphs_are_packed_with_newlines() {
    let a = "A".repeat(150);
    let b = "B".repeat(40);
    let c = "C".repeat(30);
    let text = format!("{}\n{}\n{}", a, b, c);
    let chunks = split_text_for_tts(&text);
    assert_eq!(chunks.len(), 2);
    assert_eq!(chunks[0].text, format!("{}\n{}", a, b));
    assert_eq!(chunks[0].pause_ms, PARAGRAPH_PAUSE_MS);
    assert_eq!(chunks[1].text, c);
    assert_eq!(chunks[1].pause_ms, 0);
}

#[test]
fn chunks_keep_the_text_in_order() {
    let long_para = "Sentence one is here. ".repeat(20);
    let text = format!("{}\nTail.", long_para.trim());
    let chunks = split_text_for_tts(&text);
    let joined: String = chunks.iter().map(|c| c.text.clone()).collect::<Vec<_>>().concat();
    let expected: String = text.chars().filter(|c| *c != '\n').collect();
    assert_eq!(joined, expected);
    for c in &chunks {
        assert!(!c.text.is_empty() && c.text.chars().count() <= TTS_CHUNK_MAX_CHARS);
    }
}

#[test]
fn sentence_split_without_boundary_cuts_at_limit() {
    let mut out: Vec<String> = vec!["x".to_string()];
    let mut pauses: Vec<u32> = vec![7];
    split_sentence_with_boundaries(&"A".repeat(450), 200, &mut out, &mut pauses);
    assert_eq!(out, vec!["x".to_string(), "A".repeat(200), "A".repeat(200), "A".repeat(50)]);
    assert_eq!(pauses, vec![7, 200, 200, 0]);
}

// ---- realtime sessions ----

fn chunk(t: &str, p: u32) -> TtsChunk {
    TtsChunk { text: t.to_string(), pause_ms: p }
}

fn session_texts(s: &[Vec<&TtsChunk>]) -> Vec<Vec<String>> {
    s.iter().map(|g| g.iter().map(|c| c.text.clone()).collect()).collect()
}

#[test]
fn sessions_cut_after_paragraph_end() {
    let cs = vec![chunk("aa", 200), chunk("bb", 600), chunk("cc", 200), chunk("dd", 0)];
    let s = group_chunks_into_sessions(&cs, 5);
    assert_eq!(session_texts(&s), vec![vec!["aa", "bb"], vec!["cc", "dd"]]);
}

#[test]
fn sessions_without_paragraph_end_cut_at_limit() {
    let cs = vec![chunk("aa", 200), chunk("bb", 200), chunk("cc", 0)];
    let s = group_chunks_into_sessions(&cs, 3);
    assert_eq!(session_texts(&s), vec![vec!["aa"], vec!["bb"], vec!["cc"]]);
}

#[test]
fn sessions_all_fit_in_one() {
    let cs = vec![chunk("aa", 200), chunk("bb", 0)];
    let s = group_chunks_into_sessions(&cs, 9500);
    assert_eq!(session_texts(&s), vec![vec!["aa", "bb"]]);
    assert!(group_chunks_into_sessions(&[], 10).is_empty());
}

#[test]
fn sessions_partition_the_chunks() {
    let cs: Vec<TtsChunk> = (0..30).map(|i| chunk(&"字".repeat(i % 7 + 1), if i % 4 == 3 { 600 } else { 200 })).collect();
    let s = group_chunks_into_sessions(&cs, 20);
    let flat: Vec<String> = s.iter().flat_map(|g| g.iter().map(|c| c.text.clone())).collect();
    let all: Vec<String> = cs.iter().map(|c| c.text.clone()).collect();
    assert_eq!(flat, all);
    assert!(s.iter().all(|g| !g.is_empty()));
}

// ---- routing ----

#[test]
fn model_routing() {
    assert!(is_http_model("qwen3-tts-flash"));
    assert!(!is_http_model("qwen3-tts-flash-realtime"));
    assert!(!is_http_model("qwen3-tts-vc-realtime-2026-01-15"));
    assert!(!is_http_model("cosyvoice-v3-flash"));

    let v = |name: &str, model: &str| VoiceConfig { voice_name: name.to_string(), tts_model: model.to_string() };
    assert_eq!(resolve_model(&v("qwen-tts-vc-voice-abc", "qwen3-tts-flash"), false), "qwen3-tts-vc-realtime-2026-01-15");
    assert_eq!(resolve_model(&v("Cherry", "qwen3-tts-flash"), true), "qwen3-tts-instruct-flash");
    assert_eq!(resolve_model(&v("Cherry", "qwen3-tts-flash-realtime"), true), "qwen3-tts-instruct-flash-realtime");
    assert_eq!(resolve_model(&v("Cherry", ""), false), "qwen3-tts-instruct-flash-realtime");
    assert_eq!(resolve_model(&v("longxiaochun", "cosyvoice-v3-flash"), false), "qwen3-tts-instruct-flash-realtime");
    assert_eq!(resolve_model(&v("Cherry", "qwen3-tts-flash"), false), "qwen3-tts-flash");
}

#[test]
fn cloned_voice_never_goes_over_http() {
    for model in ["qwen3-tts-flash", "", "cosyvoice-v3-flash", "qwen3-tts-flash-realtime"] {
        for instr in [false, true] {
            let vc = VoiceConfig { voice_name: "qwen-tts-vc-voice-x".to_string(), tts_model: model.to_string() };
            assert!(!is_http_model(&resolve_model(&vc, instr)));
        }
    }
}

#[test]
fn audio_path_joining() {
    assert_eq!(join_path("/data/", "projects"), "/data/projects");
    assert_eq!(join_path("/data", "/abs"), "/abs");
    assert_eq!(join_path("", "x"), "x");
    assert_eq!(build_audio_path("/data/", "p", "l"), "/data/projects/p/audio/l.mp3");
}

#[test]
fn route_of_short_and_long_text() {
    assert_eq!(plan_tts("你好", "qwen3-tts-flash"), TtsRoute::Direct { http: true });
    assert_eq!(plan_tts("你好", "cosyvoice-v3-flash"), TtsRoute::Direct { http: false });
    let long = "他今天去了公园。".repeat(30);
    match plan_tts(&long, "qwen3-tts-flash") {
        TtsRoute::HttpChunks(cs) => {
            assert_eq!(cs.len(), 2);
            assert_eq!(cs[0].pause_ms, SENTENCE_PAUSE_MS);
            assert_eq!(cs[1].pause_ms, 0);
        }
        other => panic!("unexpected {:?}", other),
    }
    match plan_tts(&long, "qwen3-tts-flash-realtime") {
        TtsRoute::SocketSessions(ss) => {
            assert_eq!(ss, vec![vec!["他今天去了公园。".repeat(25), "他今天去了公园。".repeat(5)]]);
        }
        other => panic!("unexpected {:?}", other),
    }
}

// ---- batch synthesis ----

fn script_line(id: &str, text: &str, character: Option<&str>, instructions: &str) -> ScriptLine {
    ScriptLine {
        id: id.to_string(),
        project_id: "p".to_string(),
        line_order: 0,
        text: text.to_string(),
        character_id: character.map(|c| c.to_string()),
        gap_after_ms: 0,
        instructions: instructions.to_string(),
        section_id: None,
    }
}

fn character(id: &str, name: &str, voice: &str, model: &str) -> Character {
    Character {
        id: id.to_string(),
        project_id: "p".to_string(),
        name: name.to_string(),
        voice_name: voice.to_string(),
        tts_model: model.to_string(),
    }
}

#[test]
fn batch_skips_voiced_and_blank_lines() {
    let lines = vec![
        script_line("l1", "Hello", Some("c1"), ""),
        script_line("l2", "   ", Some("c1"), ""),
        script_line("l3", "Done already", None, ""),
        script_line("l4", "World", Some("missing"), "softly"),
    ];
    let chars = vec![character("c1", "Alice", "Cherry", "qwen3-tts-flash")];
    let items = plan_batch_tts(&lines, &["l3".to_string()], &chars);
    assert_eq!(items.len(), 2);
    assert_eq!(items[0].id, "l1");
    assert_eq!(items[0].voice.voice_name, "Cherry");
    assert_eq!(items[1].id, "l4");
    assert_eq!(items[1].voice.voice_name, "");
    assert_eq!(items[1].voice.tts_model, "");
    assert_eq!(batch_model(&items[0]), "qwen3-tts-flash");
    assert_eq!(batch_model(&items[1]), "qwen3-tts-instruct-flash-realtime");
}

#[test]
fn batch_progress_reports() {
    let item = |id: &str| BatchItem {
        id: id.to_string(),
        text: "t".to_string(),
        instructions: String::new(),
        voice: VoiceConfig { voice_name: String::new(), tts_model: String::new() },
    };
    let items = vec![item("a"), item("b"), item("c")];
    let p = batch_progress(&items, 1, BatchOutcome::Saved);
    assert_eq!((p.current, p.total, p.line_id.as_str(), p.success, p.error), (2, 3, "b", true, None));
    assert_eq!(batch_progress(&items, 2, BatchOutcome::TimedOut).error, Some("Timeout".to_string()));
    assert_eq!(
        batch_progress(&items, 0, BatchOutcome::WriteFailed("disk".to_string())).error,
        Some("Write: disk".to_string())
    );
    assert_eq!(
        batch_progress(&items, 0, BatchOutcome::SaveFailed("locked".to_string())).error,
        Some("DB: locked".to_string())
    );
    let failed = batch_progress(&items, 0, BatchOutcome::SynthesisFailed("boom".to_string()));
    assert!(!failed.success);
    assert_eq!(failed.error, Some("boom".to_string()));
}

#[test]
fn batch_after_a_complete_batch_plans_nothing() {
    let lines = vec![
        script_line("l1", "Hello", Some("c1"), ""),
        script_line("l2", "", None, ""),
        script_line("l3", "Again", None, ""),
    ];
    let chars = vec![character("c1", "Alice", "Cherry", "qwen3-tts-flash")];
    let done = vec!["l3".to_string()];
    let first = plan_batch_tts(&lines, &done, &chars);
    let mut after = done.clone();
    after.extend(first.iter().map(|i| i.id.clone()));
    assert!(plan_batch_tts(&lines, &after, &chars).is_empty());
}

#[test]
fn sessions_break_at_paragraph_ends() {
    let cs = vec![
        chunk("aaaa", 200),
        chunk("bb", 600),
        chunk("ccc", 200),
        chunk("dd", 200),
        chunk("e", 600),
        chunk("ffff", 0),
    ];
    let s = group_chunks_into_sessions(&cs, 8);
    for g in s.iter().take(s.len() - 1) {
        let ends_paragraph = g.last().unwrap().pause_ms >= PARAGRAPH_PAUSE_MS;
        let has_none = g.iter().all(|c| c.pause_ms < PARAGRAPH_PAUSE_MS);
        assert!(ends_paragraph || has_none);
    }
    assert_eq!(session_texts(&s), vec![vec!["aaaa", "bb"], vec!["ccc", "dd", "e"], vec!["ffff"]]);
}

#[test]
fn last_chunk_of_a_long_paragraph_has_no_pause() {
    let chunks = split_text_for_tts(&"A".repeat(500));
    let texts: Vec<String> = chunks.iter().map(|c| c.text.clone()).collect();
    let pauses: Vec<u32> = chunks.iter().map(|c| c.pause_ms).collect();
    assert_eq!(texts, vec!["A".repeat(200), "A".repeat(200), "A".repeat(100)]);
    assert_eq!(pauses, vec![SENTENCE_PAUSE_MS, SENTENCE_PAUSE_MS, 0]);
}

#[test]
fn sessions_close_until_the_chunk_fits() {
    let cs = vec![chunk("aaa", 600), chunk("bbbbbb", 200), chunk("ccccc", 0)];
    let s = group_chunks_into_sessions(&cs, 10);
    assert_eq!(session_texts(&s), vec![vec!["aaa"], vec!["bbbbbb"], vec!["ccccc"]]);
    for g in &s {
        assert!(g.iter().map(|c| c.text.len()).sum::<usize>() <= 10);
    }
}

#[test]
fn sessions_within_limit_when_chunks_fit() {
    let cs: Vec<TtsChunk> = (0..40).map(|i| chunk(&"字".repeat(i % 5 + 1), if i % 3 == 2 { 600 } else { 200 })).collect();
    let s = group_chunks_into_sessions(&cs, 18);
    for g in &s {
        assert!(g.iter().map(|c| c.text.chars().count()).sum::<usize>() <= 18);
    }
}

#[test]
fn chunks_keep_every_visible_character() {
    let text = format!("  第一段。{}\n\n  second paragraph, with   spaces.\t\n{}  ", "他今天去了公园。".repeat(40), "x y ".repeat(70));
    let chunks = split_text_for_tts(&text);
    let visible = |s: &str| s.chars().filter(|c| !c.is_whitespace()).collect::<String>();
    let joined: String = chunks.iter().map(|c| c.text.clone()).collect::<Vec<_>>().concat();
    assert_eq!(visible(&joined), visible(&text));
}

#[test]
fn audio_paths_differ_per_project_and_line() {
    let a = build_audio_path("/data", "p1", "l1");
    let b = build_audio_path("/data", "p1", "l2");
    let c = build_audio_path("/data", "p2", "l1");
    assert!(a.starts_with("/data/") && b.starts_with("/data/") && c.starts_with("/data/"));
    assert!(a.ends_with("/l1.mp3"));
    assert!(a != b && a != c && b != c);
}

#[test]
fn sessions_count_characters() {
    let cs = vec![chunk("字字字", 600), chunk("字字字", 0)];
    let s = group_chunks_into_sessions(&cs, 6);
    assert_eq!(session_texts(&s), vec![vec!["字字字", "字字字"]]);
    let s = group_chunks_into_sessions(&cs, 5);
    assert_eq!(session_texts(&s), vec![vec!["字字字"], vec!["字字字"]]);
}
