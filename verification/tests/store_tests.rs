use voxflow::audio::{bgm_file_name, bgm_name_with};
use voxflow::cli::{
    lines_without_audio, missing_line_note, parse_section_indices, parse_usize, revision_note, script_listing,
    split_ids, tts_api_key,
};
use voxflow::dashscope::realtime_url;
use voxflow::merge::{concat_args, concat_list, plan_merge, reencode_args, silence_args, silence_file_name, MergePart, MergePlan};
use voxflow::models::{AudioFragment, ScriptLine, ScriptLineWithMeta};
use voxflow::script::embeddings_url;
use voxflow::storage::{group_by_project, stale_rows_sql};

// ---- merging chunk audio ----

#[test]
fn merge_plans() {
    assert_eq!(plan_merge(&[]), Err("no audio chunks to merge".to_string()));
    assert_eq!(plan_merge(&[("/a.mp3".to_string(), 600)]), Ok(MergePlan::Copy("/a.mp3".to_string())));
    let plan = plan_merge(&[("/a.mp3".to_string(), 200), ("/b.mp3".to_string(), 0), ("/c.mp3".to_string(), 600)]);
    assert_eq!(
        plan,
        Ok(MergePlan::Concat(vec![
            MergePart::Audio("/a.mp3".to_string()),
            MergePart::Silence { index: 0, ms: 200 },
            MergePart::Audio("/b.mp3".to_string()),
            MergePart::Audio("/c.mp3".to_string()),
        ]))
    );
}

#[test]
fn merge_commands() {
    assert_eq!(silence_file_name(3), "tts_silence_3.mp3");
    assert_eq!(
        concat_list(&["/tmp/a.mp3".to_string(), "/tmp/it's.mp3".to_string()]),
        "file '/tmp/a.mp3'\nfile '/tmp/it'\\''s.mp3'\n"
    );
    assert_eq!(
        concat_args("/tmp/list.txt", "/out.mp3"),
        vec!["-y", "-f", "concat", "-safe", "0", "-i", "/tmp/list.txt", "-c", "copy", "/out.mp3"]
    );
    assert_eq!(
        silence_args("/tmp/s.mp3", 600),
        vec!["-y", "-f", "lavfi", "-i", "anullsrc=r=22050:cl=mono", "-t", "0.600", "-c:a", "libmp3lame", "-b:a", "192k", "/tmp/s.mp3"]
    );
    assert_eq!(silence_args("/s", 12345)[6], "12.345");
    assert_eq!(
        reencode_args("/a.mp3", "/a.tmp.mp3"),
        vec!["-y", "-i", "/a.mp3", "-codec:a", "libmp3lame", "-b:a", "192k", "/a.tmp.mp3"]
    );
}

// ---- addresses and names ----

#[test]
fn addresses_and_file_names() {
    assert_eq!(embeddings_url("https://api.example.com/v1/"), "https://api.example.com/v1/embeddings");
    assert_eq!(realtime_url("qwen3-tts-flash-realtime"), "wss://dashscope.aliyuncs.com/api-ws/v1/realtime?model=qwen3-tts-flash-realtime");
    assert_eq!(bgm_file_name("rain", "/music/rain.ogg"), "rain.ogg");
    assert_eq!(bgm_file_name("rain", "/music/rain"), "rain.mp3");
    assert_eq!(bgm_file_name("x", "/music/.hidden"), "x.mp3");
    assert_eq!(bgm_name_with("theme", Some("wav")), "theme.wav");
    assert_eq!(bgm_name_with("theme", None), "theme.mp3");
}

// ---- store ----

#[test]
fn stale_row_statements() {
    assert_eq!(stale_rows_sql("script_lines", 0), "DELETE FROM script_lines WHERE project_id = ?1");
    assert_eq!(stale_rows_sql("script_sections", 1), "DELETE FROM script_sections WHERE project_id = ?1 AND id NOT IN (?2)");
    assert_eq!(
        stale_rows_sql("script_lines", 12),
        "DELETE FROM script_lines WHERE project_id = ?1 AND id NOT IN (?2,?3,?4,?5,?6,?7,?8,?9,?10,?11,?12,?13)"
    );
}

#[test]
fn grouping_by_project() {
    let rows = vec![
        ("p2".to_string(), "Beta".to_string(), 1),
        ("p1".to_string(), "Alpha".to_string(), 2),
        ("p2".to_string(), "Beta".to_string(), 3),
        ("p1".to_string(), "Alpha".to_string(), 4),
        ("p3".to_string(), "Gamma".to_string(), 5),
    ];
    assert_eq!(
        group_by_project(rows),
        vec![
            ("p2".to_string(), "Beta".to_string(), vec![1, 3]),
            ("p1".to_string(), "Alpha".to_string(), vec![2, 4]),
            ("p3".to_string(), "Gamma".to_string(), vec![5]),
        ]
    );
    assert!(group_by_project::<u8>(vec![]).is_empty());
}

// ---- command line ----

#[test]
fn comma_separated_arguments() {
    assert_eq!(split_ids(" a, b ,c,"), vec!["a", "b", "c", ""]);
    assert_eq!(parse_section_indices("0, 2,x, +3 ,-1,,99999999999999999999999"), vec![0, 2, 3]);
    assert_eq!(parse_usize("18446744073709551615"), Some(usize::MAX));
    assert_eq!(parse_usize("18446744073709551616"), None);
    assert_eq!(parse_usize("+"), None);
    assert_eq!(parse_usize(""), None);
    assert_eq!(parse_usize("007"), Some(7));
    assert_eq!(revision_note("Shorter"), "REVISION REQUEST: Shorter\nOnly modify the requested sections.");
    assert_eq!(tts_api_key(Some("t".to_string()), Some("k".to_string())), Ok("t".to_string()));
    assert_eq!(tts_api_key(None, Some("k".to_string())), Ok("k".to_string()));
    assert_eq!(tts_api_key(None, None), Err("Missing --key (or set VOXFLOW_API_KEY or --tts-key)".to_string()));
}

fn meta(text: &str, who: Option<&str>, section: Option<&str>) -> ScriptLineWithMeta {
    ScriptLineWithMeta {
        id: text.to_string(),
        project_id: "p".to_string(),
        line_order: 0,
        text: text.to_string(),
        character_id: None,
        gap_after_ms: 500,
        instructions: String::new(),
        section_id: None,
        character_name: who.map(|s| s.to_string()),
        section_title: section.map(|s| s.to_string()),
    }
}

#[test]
fn script_listing_with_headers() {
    let lines = vec![
        meta("Hi", Some("Alice"), Some("Act 1")),
        meta("Hello", None, Some("Act 1")),
        meta("Loose", None, None),
        meta("Bye", Some("Bob"), Some("Act 2")),
    ];
    assert_eq!(
        script_listing(&lines),
        vec!["\n=== Act 1 ===\n", "[Alice] Hi", "[Narrator] Hello", "[Narrator] Loose", "\n=== Act 2 ===\n", "[Bob] Bye"]
    );
}

fn line(id: &str, text: &str, who: Option<&str>) -> ScriptLine {
    ScriptLine {
        id: id.to_string(),
        project_id: "p".to_string(),
        line_order: 0,
        text: text.to_string(),
        character_id: who.map(|s| s.to_string()),
        gap_after_ms: 0,
        instructions: String::new(),
        section_id: None,
    }
}

fn fragment(line_id: &str) -> AudioFragment {
    AudioFragment {
        id: format!("f{}", line_id),
        project_id: "p".to_string(),
        line_id: line_id.to_string(),
        file_path: format!("/a/{}.mp3", line_id),
        duration_ms: None,
        source: "tts".to_string(),
    }
}

#[test]
fn audio_status_of_lines() {
    let lines = vec![line("l1", "a", None), line("l2", "b", Some("c9")), line("l3", "c", None)];
    assert_eq!(lines_without_audio(&lines, &[fragment("l2")]), vec![0, 2]);
    assert_eq!(lines_without_audio(&lines, &[]), vec![0, 1, 2]);
    assert_eq!(missing_line_note(&lines[1]), "  [c9] l2: b");
    assert_eq!(missing_line_note(&line("l4", &"字".repeat(70), None)), format!("  [Narrator] l4: {}", "字".repeat(60)));
}
