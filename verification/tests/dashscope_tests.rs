use voxflow::dashscope::{
    decode_upload, download_retry, enrollment_payload, http_audio_source, http_tts_body,
    session_finish_message, session_messages, session_update_message, text_append_message,
    voice_data_uri, HttpAudio, RetryDecision, WsAction, WsEvent, WsReplyFields, WsSession,
};
use voxflow::error::AppError;

#[test]
fn session_messages_in_order() {
    assert_eq!(
        session_update_message("qwen3-tts-flash-realtime", "Cherry", Some("speak softly")),
        "{\"session\":{\"instructions\":\"speak softly\",\"mode\":\"server_commit\",\"model\":\"qwen3-tts-flash-realtime\",\"response_format\":\"mp3\",\"sample_rate\":24000,\"voice\":\"Cherry\"},\"type\":\"session.update\"}"
    );
    assert_eq!(
        session_update_message("qwen3-tts-vc-realtime-2026-01-15", "v1", Some("ignored")),
        "{\"session\":{\"mode\":\"server_commit\",\"model\":\"qwen3-tts-vc-realtime-2026-01-15\",\"response_format\":\"mp3\",\"sample_rate\":24000,\"voice\":\"v1\"},\"type\":\"session.update\"}"
    );
    assert!(!session_update_message("m", "v", Some("   ")).contains("instructions"));
    assert_eq!(
        text_append_message("say \"hi\"\n"),
        "{\"text\":\"say \\\"hi\\\"\\n\",\"type\":\"input_text_buffer.append\"}"
    );
    assert_eq!(session_finish_message(), "{\"type\":\"session.finish\"}");
    let all = session_messages(&["a".to_string(), "b".to_string()], "m", "v", None);
    assert_eq!(all.len(), 4);
    assert_eq!(all[1], text_append_message("a"));
    assert_eq!(all[2], text_append_message("b"));
    assert_eq!(all[3], session_finish_message());
}

#[test]
fn session_collects_audio_until_finished() {
    let mut s = WsSession::new();
    assert_eq!(s.on_event(WsEvent::Text("{\"type\":\"response.created\"}".to_string())), WsAction::DisarmIdle);
    assert_eq!(
        s.on_event(WsEvent::Text("{\"type\":\"response.audio.delta\",\"delta\":\"AQID\"}".to_string())),
        WsAction::Continue
    );
    assert_eq!(
        s.on_event(WsEvent::Text("{\"type\":\"response.audio.delta\",\"delta\":\"!!!!\"}".to_string())),
        WsAction::Continue
    );
    assert_eq!(s.on_event(WsEvent::Text("not json".to_string())), WsAction::Continue);
    assert_eq!(s.on_event(WsEvent::Other), WsAction::Continue);
    assert_eq!(s.audio, vec![1, 2, 3]);
    assert_eq!(s.on_event(WsEvent::Text("{\"type\":\"response.done\"}".to_string())), WsAction::ArmIdle);
    assert!(s.idle);
    assert_eq!(s.on_event(WsEvent::TimedOut), WsAction::Finish);
    assert_eq!(s.on_event(WsEvent::Text("{\"type\":\"session.finished\"}".to_string())), WsAction::Finish);
    assert_eq!(s.finish(), Ok(vec![1, 2, 3]));
}

#[test]
fn session_failures() {
    let mut s = WsSession::new();
    assert_eq!(
        s.on_event(WsEvent::TimedOut),
        WsAction::Fail(AppError::TtsService("WS task timed out (600s)".to_string()))
    );
    assert_eq!(
        s.on_event(WsEvent::Closed),
        WsAction::Fail(AppError::TtsService("WS closed unexpectedly".to_string()))
    );
    assert_eq!(
        s.on_event(WsEvent::SocketError("reset".to_string())),
        WsAction::Fail(AppError::TtsService("WS error: reset".to_string()))
    );
    assert_eq!(
        s.on_event(WsEvent::Text("{\"type\":\"error\",\"error\":{\"code\":\"Throttling\",\"message\":\"slow down\"}}".to_string())),
        WsAction::Fail(AppError::TtsService("TTS error: Throttling - slow down".to_string()))
    );
    assert_eq!(
        s.on_event(WsEvent::Text("{\"type\":\"error\"}".to_string())),
        WsAction::Fail(AppError::TtsService("TTS error:  - ".to_string()))
    );
    assert_eq!(WsSession::new().finish(), Err(AppError::TtsService("No audio received".to_string())));

    let mut with_audio = WsSession { audio: vec![9], idle: false };
    assert_eq!(with_audio.on_event(WsEvent::Closed), WsAction::Finish);
    assert_eq!(with_audio.on_event(WsEvent::SocketError("x".to_string())), WsAction::Finish);
}

#[test]
fn http_request_and_reply() {
    assert_eq!(
        http_tts_body("你好", "Cherry", Some("cheerful"), "qwen3-tts-flash"),
        "{\"input\":{\"instructions\":\"cheerful\",\"optimize_instructions\":true,\"text\":\"你好\",\"voice\":\"Cherry\"},\"model\":\"qwen3-tts-flash\"}"
    );
    assert_eq!(
        http_tts_body("hi", "Cherry", None, "qwen3-tts-flash"),
        "{\"input\":{\"text\":\"hi\",\"voice\":\"Cherry\"},\"model\":\"qwen3-tts-flash\"}"
    );
    assert_eq!(
        http_audio_source(Some("http://oss.example.com/a.mp3?x=http://".to_string()), None, "{}"),
        Ok(HttpAudio::Url("https://oss.example.com/a.mp3?x=http://".to_string()))
    );
    assert_eq!(http_audio_source(None, Some("AQID".to_string()), "{}"), Ok(HttpAudio::Bytes(vec![1, 2, 3])));
    assert_eq!(
        http_audio_source(None, Some("!!!!".to_string()), "{}"),
        Err(AppError::TtsService("解码音频失败: Invalid symbol 33, offset 0.".to_string()))
    );
    assert_eq!(
        http_audio_source(None, None, "{\"output\":{}}"),
        Err(AppError::TtsService("响应中未找到音频: {\"output\":{}}".to_string()))
    );
}

#[test]
fn download_retries() {
    assert_eq!(download_retry(1, "e"), RetryDecision::Retry);
    assert_eq!(download_retry(2, "e"), RetryDecision::Retry);
    assert_eq!(
        download_retry(3, "timeout"),
        RetryDecision::GiveUp(AppError::TtsService("下载百炼 TTS 音频失败 (3次重试): timeout".to_string()))
    );
}

#[test]
fn uploads_and_enrollment() {
    assert_eq!(decode_upload("aGVsbG8="), Ok(b"hello".to_vec()));
    assert_eq!(
        decode_upload("!!!!"),
        Err(AppError::FileSystem("base64 decode: Invalid symbol 33, offset 0.".to_string()))
    );
    assert_eq!(voice_data_uri("aGVsbG8"), Err(AppError::FileSystem("base64 decode: Invalid padding".to_string())));
    assert_eq!(voice_data_uri("aGVsbG8="), Ok("data:audio/mpeg;base64,aGVsbG8=".to_string()));
    assert_eq!(
        enrollment_payload("qwen3-tts-vc-realtime-2026-01-15", "narrator", "data:audio/mpeg;base64,AA=="),
        "{\"input\":{\"action\":\"create\",\"audio\":{\"data\":\"data:audio/mpeg;base64,AA==\"},\"preferred_name\":\"narrator\",\"target_model\":\"qwen3-tts-vc-realtime-2026-01-15\"},\"model\":\"qwen-voice-enrollment\"}"
    );
}

fn fields(kind: Option<&str>, delta: Option<&str>) -> WsReplyFields {
    WsReplyFields {
        kind: kind.map(|s| s.to_string()),
        delta: delta.map(|s| s.to_string()),
        error_code: None,
        error_message: None,
    }
}

#[test]
fn session_replies_given_their_fields() {
    let mut s = WsSession::new();
    assert_eq!(s.on_reply(None), WsAction::Continue);
    assert_eq!(s.on_reply(Some(fields(Some("response.audio.delta"), Some("/w==")))), WsAction::Continue);
    assert_eq!(s.audio, vec![255]);
    assert_eq!(s.on_reply(Some(fields(None, None))), WsAction::Continue);
    assert_eq!(s.on_reply(Some(fields(Some("response.done"), None))), WsAction::ArmIdle);
    assert!(s.idle);
    assert_eq!(s.on_reply(Some(fields(Some("response.created"), None))), WsAction::DisarmIdle);
    assert!(!s.idle);
    let mut e = fields(Some("error"), None);
    e.error_message = Some("bad voice".to_string());
    assert_eq!(s.on_reply(Some(e)), WsAction::Fail(AppError::TtsService("TTS error:  - bad voice".to_string())));
}

#[test]
fn uploads_decode_only_canonical_base64() {
    assert!(decode_upload("aGVsbG8=").is_ok());
    assert!(decode_upload("aGVsbG9=").is_err());
    assert!(decode_upload("aGVs bG8=").is_err());
    assert_eq!(voice_data_uri("AAEC"), Ok("data:audio/mpeg;base64,AAEC".to_string()));
}
