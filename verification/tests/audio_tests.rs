use voxflow::audio::{
    build_ffmpeg_args, check_export_files, cli_mix_args, detect_missing_audio, ffmpeg_failure_message,
    keep_existing, mix_progress_due, plan_export, playback_args, select_ffmpeg, verify_stage_text, PcmNext,
    PcmSource,
};
use voxflow::error::AppError;
use voxflow::models::{AudioFragment, ScriptLine};

fn ids(v: &[&str]) -> Vec<String> {
    v.iter().map(|s| s.to_string()).collect()
}

// ---- missing audio (commands/audio.rs) ----

#[test]
fn audio_test_detect_missing_audio_all_present() {
    let script_ids = ids(&["l1", "l2", "l3"]);
    let audio_ids = ids(&["l1", "l2", "l3"]);
    let missing = detect_missing_audio(&script_ids, &audio_ids);
    assert!(missing.is_empty());
}

#[test]
fn audio_test_detect_missing_audio_some_missing() {
    let script_ids = ids(&["l1", "l2", "l3"]);
    let audio_ids = ids(&["l1", "l3"]);
    let missing = detect_missing_audio(&script_ids, &audio_ids);
    assert_eq!(missing, vec!["l2".to_string()]);
}

#[test]
fn audio_test_detect_missing_audio_all_missing() {
    let script_ids = ids(&["l1", "l2"]);
    let audio_ids: Vec<String> = vec![];
    let missing = detect_missing_audio(&script_ids, &audio_ids);
    assert_eq!(missing, vec!["l1".to_string(), "l2".to_string()]);
}

#[test]
fn audio_test_detect_missing_audio_empty_script() {
    let script_ids: Vec<String> = vec![];
    let audio_ids = ids(&["l1"]);
    let missing = detect_missing_audio(&script_ids, &audio_ids);
    assert!(missing.is_empty());
}

#[test]
fn audio_test_detect_missing_audio_preserves_order() {
    let script_ids = ids(&["l3", "l1", "l2"]);
    let audio_ids = ids(&["l1"]);
    let missing = detect_missing_audio(&script_ids, &audio_ids);
    assert_eq!(missing, vec!["l3".to_string(), "l2".to_string()]);
}

// ---- missing audio (commands/audio/utils.rs) ----

#[test]
fn utils_test_detect_missing_audio_all_present() {
    let script_ids = ids(&["l1", "l2", "l3"]);
    let audio_ids = ids(&["l1", "l2", "l3"]);
    let missing = detect_missing_audio(&script_ids, &audio_ids);
    assert!(missing.is_empty());
}

#[test]
fn utils_test_detect_missing_audio_some_missing() {
    let script_ids = ids(&["l1", "l2", "l3"]);
    let audio_ids = ids(&["l1", "l3"]);
    let missing = detect_missing_audio(&script_ids, &audio_ids);
    assert_eq!(missing, vec!["l2".to_string()]);
}

#[test]
fn utils_test_detect_missing_audio_all_missing() {
    let script_ids = ids(&["l1", "l2"]);
    let audio_ids: Vec<String> = vec![];
    let missing = detect_missing_audio(&script_ids, &audio_ids);
    assert_eq!(missing, vec!["l1".to_string(), "l2".to_string()]);
}

#[test]
fn utils_test_detect_missing_audio_empty_script() {
    let script_ids: Vec<String> = vec![];
    let audio_ids = ids(&["l1"]);
    let missing = detect_missing_audio(&script_ids, &audio_ids);
    assert!(missing.is_empty());
}

#[test]
fn utils_test_detect_missing_audio_preserves_order() {
    let script_ids = ids(&["l3", "l1", "l2"]);
    let audio_ids = ids(&["l1"]);
    let missing = detect_missing_audio(&script_ids, &audio_ids);
    assert_eq!(missing, vec!["l3".to_string(), "l2".to_string()]);
}

#[test]
fn missing_audio_keeps_duplicates_and_ignores_extra_fragments() {
    let script_ids = ids(&["a", "b", "a", "c"]);
    let audio_ids = ids(&["c", "zz"]);
    let missing = detect_missing_audio(&script_ids, &audio_ids);
    assert_eq!(missing, ids(&["a", "b", "a"]));
}

// ---- mix arguments ----

#[test]
fn test_build_ffmpeg_args_single_file_no_bgm() {
    let paths = vec!["/tmp/a.mp3".to_string()];
    let args = build_ffmpeg_args(&paths, None, "0.3", &[], "/tmp/out.mp3");

    assert!(args.contains(&"-y".to_string()));
    assert!(args.contains(&"-i".to_string()));
    assert!(args.contains(&"/tmp/a.mp3".to_string()));
    assert!(args.contains(&"-c".to_string()));
    assert!(args.contains(&"copy".to_string()));
    assert!(args.contains(&"/tmp/out.mp3".to_string()));
}

#[test]
fn test_build_ffmpeg_args_multiple_files_no_bgm() {
    let paths = ids(&["/tmp/a.mp3", "/tmp/b.mp3", "/tmp/c.mp3"]);
    let args = build_ffmpeg_args(&paths, None, "0.3", &[], "/tmp/out.mp3");

    assert!(args.contains(&"-y".to_string()));
    assert!(args.contains(&"/tmp/a.mp3".to_string()));
    assert!(args.contains(&"/tmp/b.mp3".to_string()));
    assert!(args.contains(&"/tmp/c.mp3".to_string()));
    assert!(args.contains(&"-filter_complex".to_string()));

    let fc_idx = args.iter().position(|a| a == "-filter_complex").unwrap();
    let filter = &args[fc_idx + 1];
    assert!(filter.contains("concat=n=3:v=0:a=1"));
    assert!(filter.contains("[voice]"));
    assert!(args.contains(&"/tmp/out.mp3".to_string()));
}

#[test]
fn test_build_ffmpeg_args_with_bgm() {
    let paths = ids(&["/tmp/a.mp3", "/tmp/b.mp3"]);
    let args = build_ffmpeg_args(&paths, Some("/tmp/bgm.mp3"), "0.3", &[], "/tmp/out.mp3");

    assert!(args.contains(&"-y".to_string()));
    assert!(args.contains(&"/tmp/a.mp3".to_string()));
    assert!(args.contains(&"/tmp/b.mp3".to_string()));
    assert!(args.contains(&"/tmp/bgm.mp3".to_string()));
    assert!(args.contains(&"-filter_complex".to_string()));

    let fc_idx = args.iter().position(|a| a == "-filter_complex").unwrap();
    let filter = &args[fc_idx + 1];
    assert!(filter.contains("amix"));
    assert!(filter.contains("volume=0.3"));
    assert!(filter.contains("concat=n=2"));
    assert!(args.contains(&"/tmp/out.mp3".to_string()));
}

#[test]
fn test_build_ffmpeg_args_single_file_with_bgm() {
    let paths = vec!["/tmp/a.mp3".to_string()];
    let args = build_ffmpeg_args(&paths, Some("/tmp/bgm.mp3"), "0.5", &[], "/tmp/out.mp3");

    assert!(args.contains(&"/tmp/bgm.mp3".to_string()));
    let fc_idx = args.iter().position(|a| a == "-filter_complex").unwrap();
    let filter = &args[fc_idx + 1];
    assert!(filter.contains("amix"));
    assert!(filter.contains("volume=0.5"));
}

#[test]
fn test_build_ffmpeg_args_output_is_last() {
    let paths = vec!["/tmp/a.mp3".to_string()];
    let args = build_ffmpeg_args(&paths, None, "0.3", &[], "/tmp/out.mp3");
    assert_eq!(args.last().unwrap(), "/tmp/out.mp3");
}

#[test]
fn test_build_ffmpeg_args_all_inputs_present() {
    let paths = ids(&["/tmp/1.mp3", "/tmp/2.mp3", "/tmp/3.mp3", "/tmp/4.mp3"]);
    let args = build_ffmpeg_args(&paths, None, "0.3", &[], "/tmp/out.mp3");

    for p in &paths {
        assert!(args.contains(p), "Expected {} in args", p);
    }
}

#[test]
fn ffmpeg_args_with_gaps_exact_filter() {
    let paths = ids(&["/a.mp3", "/b.mp3"]);
    let args = build_ffmpeg_args(&paths, None, "0.3", &[1500, 0], "/out.mp3");
    assert_eq!(
        args,
        ids(&[
            "-y",
            "-i",
            "/a.mp3",
            "-i",
            "/b.mp3",
            "-filter_complex",
            "anullsrc=r=44100:cl=stereo[sil0];[sil0]atrim=0:1.5[gap0];[0:a][gap0][1:a]concat=n=3:v=0:a=1[voice]",
            "-map",
            "[voice]",
            "/out.mp3",
        ])
    );
}

#[test]
fn ffmpeg_args_single_clip_with_gap_is_filtered() {
    let paths = ids(&["/a.mp3"]);
    let args = build_ffmpeg_args(&paths, None, "0.3", &[500], "/out.mp3");
    assert_eq!(
        args,
        ids(&["-y", "-i", "/a.mp3", "-filter_complex", "[0:a]acopy[voice]", "-map", "[voice]", "/out.mp3"])
    );
}

#[test]
fn ffmpeg_args_with_music_exact_filter() {
    let paths = ids(&["/a.mp3", "/b.mp3"]);
    let args = build_ffmpeg_args(&paths, Some("/m.mp3"), "0.25", &[], "/out.mp3");
    assert_eq!(
        args,
        ids(&[
            "-y",
            "-i",
            "/a.mp3",
            "-i",
            "/b.mp3",
            "-i",
            "/m.mp3",
            "-filter_complex",
            "[0:a][1:a]concat=n=2:v=0:a=1[voice];[2:a]volume=0.25[bgm];[voice][bgm]amix=inputs=2:duration=first:dropout_transition=2[out]",
            "-map",
            "[out]",
            "/out.mp3",
        ])
    );
}

#[test]
fn ffmpeg_binary_choice() {
    assert_eq!(select_ffmpeg(true, true), "/opt/homebrew/bin/ffmpeg");
    assert_eq!(select_ffmpeg(false, true), "/usr/local/bin/ffmpeg");
    assert_eq!(select_ffmpeg(false, false), "ffmpeg");
}

// ---- export plan ----

fn line(id: &str, order: i32, gap: i32) -> ScriptLine {
    ScriptLine {
        id: id.to_string(),
        project_id: "p".to_string(),
        line_order: order,
        text: format!("text {}", id),
        character_id: None,
        gap_after_ms: gap,
        instructions: String::new(),
        section_id: None,
    }
}

fn fragment(line_id: &str, path: &str) -> AudioFragment {
    AudioFragment {
        id: format!("f-{}", line_id),
        project_id: "p".to_string(),
        line_id: line_id.to_string(),
        file_path: path.to_string(),
        duration_ms: Some(1000),
        source: "tts".to_string(),
    }
}

#[test]
fn export_plan_follows_script_order() {
    let lines = vec![line("l1", 0, 300), line("l2", 1, 0), line("l3", 2, 700)];
    let frags = vec![fragment("l3", "/c.mp3"), fragment("l1", "/a.mp3"), fragment("other", "/x.mp3")];
    let (paths, gaps) = plan_export(&lines, &frags).unwrap();
    assert_eq!(paths, ids(&["/a.mp3", "/c.mp3"]));
    assert_eq!(gaps, vec![300, 700]);
}

#[test]
fn export_plan_without_fragments_fails() {
    let lines = vec![line("l1", 0, 0)];
    match plan_export(&lines, &[]) {
        Err(AppError::FFmpeg(m)) => assert_eq!(m, "No audio fragments found for this project"),
        other => panic!("unexpected {:?}", other),
    }
    let frags = vec![fragment("nope", "/x.mp3")];
    assert!(matches!(plan_export(&lines, &frags), Err(AppError::FFmpeg(_))));
}

#[test]
fn export_progress_and_stage() {
    assert!(mix_progress_due(5, 12));
    assert!(!mix_progress_due(6, 12));
    assert!(mix_progress_due(12, 12));
    assert_eq!(verify_stage_text(3, 12), "正在校验音频 3/12");
}

// ---- command-line mix ----

#[test]
fn command_line_mix_keeps_existing_files() {
    let paths = ids(&["/a.mp3", "/b.mp3", "/c.mp3"]);
    let (p, g) = keep_existing(&paths, &[1, 2, 3], &[true, false, true]).unwrap();
    assert_eq!(p, ids(&["/a.mp3", "/c.mp3"]));
    assert_eq!(g, vec![1, 3]);
    assert_eq!(
        keep_existing(&paths, &[1, 2, 3], &[false, false, false]),
        Err("No valid audio fragment files found".to_string())
    );
}

#[test]
fn command_line_mix_arguments() {
    let paths = ids(&["/a.mp3", "/b.mp3"]);
    assert_eq!(
        cli_mix_args(&paths, None, "0.3", &[0, 0], "/o.mp3"),
        ids(&[
            "-i",
            "/a.mp3",
            "-i",
            "/b.mp3",
            "-filter_complex",
            "[0:a][1:a]concat=n=2:v=0:a=1[voice]",
            "-map",
            "[voice]",
            "-f",
            "mp3",
            "-y",
            "/o.mp3",
        ])
    );
    let with_music = cli_mix_args(&paths, Some("/m.mp3"), "0.3", &[0, 0], "/o.mp3");
    assert_eq!(
        with_music[7],
        "[0:a][1:a]concat=n=2:v=0:a=1[voice];[2:a]volume=0.3[bgm];[voice][bgm]amix=inputs=2:duration=first:dropout_transition=0[out]"
    );
    assert_eq!(with_music[9], "[out]");
}

#[test]
fn command_line_mix_keeps_line_gaps() {
    let paths = ids(&["/a.mp3", "/b.mp3"]);
    let args = cli_mix_args(&paths, None, "0.3", &[1500, 700], "/o.mp3");
    assert_eq!(
        args[5],
        "anullsrc=r=44100:cl=stereo[sil0];[sil0]atrim=0:1.5[gap0];[0:a][gap0][1:a]concat=n=3:v=0:a=1[voice]"
    );
    let export = build_ffmpeg_args(&paths, None, "0.3", &[1500, 700], "/o.mp3");
    assert_eq!(args[5], export[6]);
}

#[test]
fn ffmpeg_failure_keeps_five_lines() {
    assert_eq!(
        ffmpeg_failure_message("a\nb\nc\nd\ne\nf\ng"),
        "ffmpeg failed: a\nb\nc\nd\ne"
    );
    assert_eq!(ffmpeg_failure_message("only\r\n"), "ffmpeg failed: only");
}

// ---- PCM decoding ----

#[test]
fn pcm_mono_decodes_little_endian() {
    let mut src = PcmSource::new(24000, 1);
    assert_eq!(src.channels(), 1);
    assert_eq!(src.sample_rate(), 24000);
    src.feed(&[0x01, 0x00, 0xff]);
    assert_eq!(src.next(), PcmNext::Sample(1));
    assert_eq!(src.next(), PcmNext::NeedInput);
    src.feed(&[0xff]);
    assert_eq!(src.next(), PcmNext::Sample(-1));
    src.end_input();
    assert_eq!(src.next(), PcmNext::End);
}

#[test]
fn pcm_stereo_yields_left_then_right() {
    let mut src = PcmSource::new(44100, 2);
    src.feed(&[0x02, 0x00, 0x00, 0x80, 0x03]);
    assert_eq!(src.next(), PcmNext::Sample(2));
    assert_eq!(src.next(), PcmNext::Sample(-32768));
    assert_eq!(src.next(), PcmNext::NeedInput);
    src.end_input();
    assert_eq!(src.next(), PcmNext::End);
}

#[test]
fn last_clip_gap_is_never_heard() {
    let paths = ids(&["/a.mp3", "/b.mp3", "/c.mp3"]);
    let a = build_ffmpeg_args(&paths, Some("/m.mp3"), "0.3", &[300, 0, 0], "/o.mp3");
    let b = build_ffmpeg_args(&paths, Some("/m.mp3"), "0.3", &[300, 0, 4000], "/o.mp3");
    assert_eq!(a, b);
    let no_gaps = build_ffmpeg_args(&paths, None, "0.3", &[], "/o.mp3");
    assert_eq!(no_gaps[8], "[0:a][1:a][2:a]concat=n=3:v=0:a=1[voice]");
}

#[test]
fn export_checks_its_files_first() {
    let paths = ids(&["/a.mp3", "/b.mp3", "/c.mp3"]);
    assert_eq!(
        check_export_files(&paths, &[true, false, false], Some("/m.mp3"), false),
        Err(AppError::FileSystem("Audio fragment file not found: /b.mp3".to_string()))
    );
    assert_eq!(
        check_export_files(&paths, &[true, true, true], Some("/m.mp3"), false),
        Err(AppError::FileSystem("BGM file not found: /m.mp3".to_string()))
    );
    assert_eq!(check_export_files(&paths, &[true, true, true], Some("/m.mp3"), true), Ok(()));
    assert_eq!(check_export_files(&paths, &[true, true, true], None, false), Ok(()));
}

#[test]
fn playback_decodes_to_raw_stereo_pcm() {
    assert_eq!(
        playback_args("/x/a.mp3"),
        ids(&["-i", "/x/a.mp3", "-f", "s16le", "-acodec", "pcm_s16le", "-ar", "44100", "-ac", "2", "-"])
    );
}
