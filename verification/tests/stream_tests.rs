use voxflow::agent::{ToolCallAccumulator, ToolCallParts};
use voxflow::dashscope::{http_reply_audio, HttpAudio};
use voxflow::error::AppError;
use voxflow::stream::{absorb_sse_chunk, StreamEvent};

#[test]
fn stream_chunk_gives_text_and_events() {
    let mut text = String::from("Hi");
    let mut calls = ToolCallAccumulator::new();
    let chunk = "data: {\"choices\":[{\"delta\":{\"reasoning_content\":\"hmm\"}}]}\n\
                 data: {\"choices\":[{\"delta\":{\"content\":\" there\"}}]}\n\
                 data: not json\n\
                 \n\
                 data: [DONE]\n";
    let events = absorb_sse_chunk(&mut text, &mut calls, chunk);
    assert_eq!(text, "Hi there");
    assert_eq!(events, vec![StreamEvent::Thinking("hmm".to_string()), StreamEvent::Token(" there".to_string())]);
    assert!(calls.finish().is_empty());
}

#[test]
fn stream_chunks_gather_tool_calls() {
    let mut text = String::new();
    let mut calls = ToolCallAccumulator::new();
    let first = "data: {\"choices\":[{\"delta\":{\"tool_calls\":[{\"index\":0,\"id\":\"call_1\",\"function\":{\"name\":\"story_recall\",\"arguments\":\"{\\\"query\"}}]}}]}\n";
    let second = "data: {\"choices\":[{\"delta\":{\"tool_calls\":[{\"index\":0,\"function\":{\"arguments\":\"\\\":\\\"x\\\"}\"}},{\"index\":1,\"function\":{\"name\":\"late\"}}]}}]}\n";
    absorb_sse_chunk(&mut text, &mut calls, first);
    absorb_sse_chunk(&mut text, &mut calls, second);
    assert_eq!(text, "");
    assert_eq!(
        calls.finish(),
        vec![ToolCallParts {
            index: 0,
            call_id: "call_1".to_string(),
            name: "story_recall".to_string(),
            arguments: "{\"query\":\"x\"}".to_string(),
        }]
    );
}

#[test]
fn http_reply_audio_reads_url_or_data() {
    assert_eq!(
        http_reply_audio(r#"{"output":{"audio":{"url":"http://oss/a.mp3","data":""}}}"#),
        Some(Ok(HttpAudio::Url("https://oss/a.mp3".to_string())))
    );
    assert_eq!(
        http_reply_audio(r#"{"output":{"audio":{"data":"aGVsbG8="}}}"#),
        Some(Ok(HttpAudio::Bytes(b"hello".to_vec())))
    );
    assert_eq!(
        http_reply_audio(r#"{ "output": {"b": 1, "a": 2} }"#),
        Some(Err(AppError::TtsService("响应中未找到音频: {\"output\":{\"a\":2,\"b\":1}}".to_string())))
    );
    assert_eq!(http_reply_audio("oops"), None);
}
