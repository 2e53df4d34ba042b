use yt_gtk::cache::transcript::TranscriptError;
use yt_gtk::gemini::{
    collect_with_chunks, configured_openrouter_models, extract_openrouter_content, messages_of,
    parse_gemini_sse_event_text, pop_next_sse_event, push_received, sse_event_data,
    streaming_failure, StreamingMessage, SummaryCollector, SummaryGenerationError,
};
use yt_gtk::summary::{
    after_gemini, after_openrouter, after_transcript, extract_gemini_text,
    extract_openrouter_text, gemini_request, gemini_summary, openrouter_request,
    openrouter_summary, prompt, resolve_transcript, start_summary, Answer, Candidate,
    GeminiResponse, MessageContent, OpenRouterResponse, ProviderCallError,
    SummarizeRequest, SummaryError, SummaryOutcome, SummaryStep,
};

fn gemini_reply(texts: &[&str]) -> GeminiResponse {
    GeminiResponse {
        candidates: Some(vec![Candidate {
            parts: texts.iter().map(|text| Some(text.to_string())).collect(),
        }]),
        error: None,
    }
}

fn parts(texts: &[&str]) -> MessageContent {
    MessageContent::Parts(texts.iter().map(|text| Some(text.to_string())).collect())
}

fn openrouter_reply(content: MessageContent) -> OpenRouterResponse {
    OpenRouterResponse { choices: Some(vec![content]), error: None }
}

fn request() -> SummarizeRequest {
    SummarizeRequest {
        video_id: "abc".to_string(),
        video_url: "https://www.youtube.com/watch?v=abc".to_string(),
        video_title: "Title".to_string(),
        channel_name: "Channel".to_string(),
        transcripts_work_dir: "/work".to_string(),
        local_subtitle_path: None,
    }
}

#[test]
fn gemini_request_sets_minimal_thinking_level() {
    let request = gemini_request("model", "https://www.youtube.com/watch?v=abc", prompt());

    assert_eq!(request.thinking_level, "minimal");
    assert_eq!(
        request.url,
        "https://generativelanguage.googleapis.com/v1beta/models/model:generateContent"
    );
    assert_eq!(request.file_uri, "https://www.youtube.com/watch?v=abc");
}

#[test]
fn openrouter_request_disables_reasoning() {
    let asked = openrouter_request(
        &Some("KEY".to_string()),
        &vec!["@preset/cheap".to_string(), "other".to_string()],
        &request(),
        "Summarize.",
        "words",
    )
    .expect("everything is there");

    assert_eq!(asked.reasoning_effort, "none");
    assert!(asked.exclude_reasoning);
    assert_eq!(asked.model, "@preset/cheap");
    assert_eq!(asked.models, vec!["other"]);
    assert_eq!(
        asked.content,
        "Summarize.\n\nVideo title: Title\nChannel: Channel\nVideo URL: \
         https://www.youtube.com/watch?v=abc\n\nTranscript:\nwords"
    );
}

#[test]
fn openrouter_is_not_asked_without_a_key_a_transcript_or_a_model() {
    let key = Some("KEY".to_string());
    let models = vec!["m".to_string()];
    let error = openrouter_request(&None, &models, &request(), "p", "t").expect_err("no key");
    assert_eq!(error.message(), "missing environment variable OPENROUTER_API_KEY");
    let error = openrouter_request(&key, &models, &request(), "p", " ").expect_err("no words");
    assert_eq!(error.message(), "transcript is empty");
    let error =
        openrouter_request(&key, &Vec::new(), &request(), "p", "t").expect_err("no model");
    assert_eq!(error.message(), "no OpenRouter models configured");
}

#[test]
fn summary_extract_openrouter_content_reads_string_payload() {
    let reply = openrouter_reply(MessageContent::Text("summary text".to_string()));
    let result = extract_openrouter_text(Ok(reply));
    assert_eq!(result.expect("payload should parse"), "summary text");
}

#[test]
fn summary_extract_openrouter_content_reads_text_parts_array() {
    let result = extract_openrouter_text(Ok(openrouter_reply(parts(&["Hello ", "world"]))));
    assert_eq!(result.expect("payload should parse"), "Hello world");
}

#[test]
fn summary_extract_openrouter_content_rejects_empty_text_parts() {
    let result = extract_openrouter_text(Ok(openrouter_reply(parts(&["   "]))));
    assert!(result.is_err());
}

#[test]
fn summary_extract_gemini_content_reads_text_parts() {
    let result = extract_gemini_text(Ok(gemini_reply(&["A ", "B"])));
    assert_eq!(result.expect("payload should parse"), "A B");
}

#[test]
fn summary_extract_gemini_content_rejects_empty_text() {
    let result = extract_gemini_text(Ok(gemini_reply(&["   "])));
    assert!(result.is_err());
}

#[test]
fn gemini_extract_openrouter_content_reads_string_payload() {
    assert_eq!(
        extract_openrouter_content(&MessageContent::Text("summary text".to_string())),
        Some("summary text".to_string())
    );
    let reply = openrouter_reply(MessageContent::Text("summary text".to_string()));
    assert_eq!(extract_openrouter_text(Ok(reply)).unwrap(), "summary text");
}

#[test]
fn gemini_extract_openrouter_content_reads_text_parts_array() {
    assert_eq!(
        extract_openrouter_content(&parts(&["Hello ", "world"])),
        Some("Hello world".to_string())
    );
    let reply = openrouter_reply(parts(&["Hello ", "world"]));
    assert_eq!(extract_openrouter_text(Ok(reply)).unwrap(), "Hello world");
}

#[test]
fn gemini_extract_openrouter_content_rejects_empty_text_parts() {
    assert_eq!(extract_openrouter_content(&parts(&["   "])), None);
    assert!(extract_openrouter_text(Ok(openrouter_reply(parts(&["   "])))).is_err());
}

#[test]
fn gemini_extract_gemini_content_reads_text_parts() {
    assert_eq!(extract_gemini_text(Ok(gemini_reply(&["A ", "B"]))).unwrap(), "A B");
}

#[test]
fn gemini_extract_gemini_content_rejects_empty_text() {
    assert!(extract_gemini_text(Ok(gemini_reply(&["   "]))).is_err());
}

#[test]
fn answers_are_trimmed_and_errors_are_reported() {
    let answer = |success: bool, parsed| Answer {
        success,
        status: "500 Internal Server Error".to_string(),
        body: "body".to_string(),
        parsed,
    };
    assert_eq!(
        gemini_summary(answer(true, Ok(gemini_reply(&[" text \n"])))).expect("it succeeded"),
        "text"
    );
    let error = gemini_summary(answer(false, Err("bad".to_string()))).expect_err("it failed");
    assert_eq!(error.message(), "HTTP 500 Internal Server Error: body");
    let reply = GeminiResponse { candidates: None, error: Some("quota".to_string()) };
    let error = gemini_summary(answer(false, Ok(reply))).expect_err("it failed");
    assert_eq!(error.message(), "HTTP 500 Internal Server Error: quota");
    let error = gemini_summary(answer(true, Err("bad".to_string()))).expect_err("unreadable");
    assert!(matches!(error, ProviderCallError::ParseResponse { .. }));
    let answer = Answer {
        success: true,
        status: "200 OK".to_string(),
        body: String::new(),
        parsed: Ok(openrouter_reply(MessageContent::Text(" text ".to_string()))),
    };
    assert_eq!(openrouter_summary(answer).expect("it succeeded"), "text");
}

#[test]
fn summaries_fall_back_from_gemini_to_openrouter_to_the_transcript() {
    assert!(matches!(
        start_summary(Some("KEY".to_string())),
        SummaryStep::AskGemini { api_key } if api_key == "KEY"
    ));
    assert!(matches!(start_summary(None), SummaryStep::GetTranscript { .. }));
    assert!(matches!(
        after_gemini(Ok("text".to_string())),
        SummaryStep::Done(SummaryOutcome::Summary(text)) if text == "text"
    ));
    assert!(matches!(
        after_gemini(Err(ProviderCallError::EmptyTranscript)),
        SummaryStep::GetTranscript { gemini } if gemini == "transcript is empty"
    ));
    assert!(matches!(
        after_transcript("g".to_string(), Ok("words".to_string())),
        SummaryStep::AskOpenRouter { transcript } if transcript == "words"
    ));
    match after_transcript("g".to_string(), Err("t".to_string())) {
        SummaryStep::Failed(error) => {
            assert_eq!(error.message(), "Gemini failed: g. Transcript fallback failed: t");
            assert!(matches!(error, SummaryError::NoSummaryOrTranscript { .. }));
        }
        other => panic!("unexpected {other:?}"),
    }
    assert!(matches!(
        after_openrouter("words", Err(ProviderCallError::NoOpenRouterModels)),
        SummaryStep::Done(SummaryOutcome::TranscriptOnly(text)) if text == "words"
    ));
    assert!(matches!(
        after_openrouter("words", Ok("text".to_string())),
        SummaryStep::Done(SummaryOutcome::Summary(text)) if text == "text"
    ));
}

#[test]
fn local_transcripts_go_first() {
    let failed = || Some(Err(TranscriptError::SubtitleFetchFailed));
    let local = Some("local".to_string());
    assert_eq!(resolve_transcript(local.clone(), None), Some(Ok("local".to_string())));
    assert_eq!(resolve_transcript(local, failed()), Some(Ok("local".to_string())));
    assert_eq!(resolve_transcript(None, None), None);
    assert_eq!(
        resolve_transcript(None, failed()),
        Some(Err("yt-dlp failed to fetch subtitles".to_string()))
    );
    assert_eq!(
        resolve_transcript(None, Some(Ok("  ".to_string()))),
        Some(Err("transcript is empty".to_string()))
    );
    assert_eq!(
        resolve_transcript(None, Some(Ok(" text".to_string()))),
        Some(Ok(" text".to_string()))
    );
}

#[test]
fn pop_next_sse_event_drains_consumed_bytes() {
    let mut buffer = String::from("data: one\n\ndata: two\n\n");
    assert_eq!(
        pop_next_sse_event(&mut buffer),
        Some("data: one".to_string())
    );
    assert_eq!(buffer, "data: two\n\n");
}

#[test]
fn received_text_loses_its_carriage_returns() {
    let mut buffer = String::from("data: a");
    push_received(&mut buffer, "b\r\n\r\n");
    assert_eq!(pop_next_sse_event(&mut buffer), Some("data: ab".to_string()));
    assert_eq!(pop_next_sse_event(&mut buffer), None);
    assert_eq!(sse_event_data("data: x"), Some("x"));
    assert_eq!(sse_event_data("event: x"), None);
}

#[test]
fn parse_gemini_sse_event_text_extracts_candidate_text() {
    let event = r#"data: {"candidates":[{"content":{"parts":[{"text":"A "},{"text":"B"}]}}]}"#;
    assert_eq!(
        parse_gemini_sse_event_text(event, Some(gemini_reply(&["A ", "B"]))),
        vec!["A ".to_string(), "B".to_string()]
    );
}

#[test]
fn parse_gemini_sse_event_text_ignores_non_data_or_invalid_json() {
    assert!(parse_gemini_sse_event_text("event: ping", None).is_empty());
    assert!(parse_gemini_sse_event_text("event: ping", Some(gemini_reply(&["A"]))).is_empty());
    assert!(parse_gemini_sse_event_text("data: {", None).is_empty());
}

#[test]
fn collect_with_chunks_returns_trimmed_summary() {
    let messages = vec![
        StreamingMessage::Chunk(" hello".to_string()),
        StreamingMessage::Chunk(" world ".to_string()),
        StreamingMessage::Done,
    ];
    let summary = collect_with_chunks(&messages).expect("summary should be collected");
    assert_eq!(summary, "hello world");
}

#[test]
fn collect_returns_stream_error() {
    let result =
        collect_with_chunks(&vec![StreamingMessage::Error("provider failed".to_string())]);
    assert!(matches!(
        result,
        Err(SummaryGenerationError::Stream(error)) if error == "provider failed"
    ));
}

#[test]
fn collect_returns_empty_summary_error() {
    let messages = vec![StreamingMessage::Chunk("   ".to_string()), StreamingMessage::Done];
    let result = collect_with_chunks(&messages);
    assert!(matches!(result, Err(SummaryGenerationError::EmptySummary)));
}

#[test]
fn streamed_summaries_are_collected() {
    let chunk = |text: &str| StreamingMessage::Chunk(text.to_string());
    let collected = collect_with_chunks(&vec![
        chunk("  hello "),
        chunk("world \n"),
        StreamingMessage::Done,
        chunk("ignored"),
    ]);
    assert_eq!(collected.expect("there is a summary"), "hello world");
    let error = collect_with_chunks(&vec![
        chunk("part"),
        StreamingMessage::Error("provider failed".to_string()),
    ])
    .expect_err("it failed");
    assert_eq!(error.message(), "provider failed");
    let error = collect_with_chunks(&vec![chunk("  "), StreamingMessage::Done])
        .expect_err("it is blank");
    assert!(matches!(error, SummaryGenerationError::EmptySummary));
    assert_eq!(error.message(), "Summary was empty");

    let mut collector = SummaryCollector::new();
    assert!(collector.accept(&chunk("a")).is_none());
    assert_eq!(collector.finish().expect("the stream just ended"), "a");
}

#[test]
fn texts_that_came_at_once_are_told_in_one_piece() {
    let messages = messages_of("  text ");
    assert_eq!(messages.len(), 2);
    assert_eq!(collect_with_chunks(&messages).expect("there is a text"), "text");
    assert_eq!(messages_of("  ").len(), 1);
    assert!(matches!(
        streaming_failure("g", "o"),
        StreamingMessage::Error(text)
            if text == "Gemini failed: g. OpenRouter fallback failed: o"
    ));
    assert!(!configured_openrouter_models(None).is_empty());
}
