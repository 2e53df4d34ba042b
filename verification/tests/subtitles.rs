use std::collections::hash_map::DefaultHasher;
use std::hash::{Hash, Hasher};
use yt_gtk::cache::subtitle_requests::{
    after_attempt, deterministic_jitter_ms, is_rate_limited, retry_delay_for,
    retry_delay_with_jitter, SubtitleRateLimiter, SubtitleStep, BASE_429_BACKOFF_MS,
    MAX_429_BACKOFF_MS, MAX_429_RETRIES, MAX_JITTER_MS,
};
use yt_gtk::cache::transcript::{
    clean_transcript, find_subtitle_path, parse_json3, parse_vtt, strip_vtt_tags, transcript_args,
    transcript_from_vtt, unique_fetch_dir, Json3Event, Json3Segment, Json3Subtitle,
    TranscriptError,
};

#[test]
fn is_rate_limited_detects_http_429() {
    assert!(is_rate_limited(
        "ERROR: Unable to download subtitles: HTTP Error 429"
    ));
}

#[test]
fn is_rate_limited_detects_too_many_requests() {
    assert!(is_rate_limited("Too Many Requests"));
}

#[test]
fn is_rate_limited_detects_rate_limit_two_words() {
    assert!(is_rate_limited("Exceeded rate limit for this endpoint"));
}

#[test]
fn is_rate_limited_detects_rate_limited_hyphenated() {
    assert!(is_rate_limited("You have been rate-limited by the server"));
}

#[test]
fn is_rate_limited_ignores_unrelated_errors() {
    assert!(!is_rate_limited("ERROR: Sign in to confirm your age"));
    assert!(!is_rate_limited("ERROR: Video unavailable"));
}

#[test]
fn is_rate_limited_detects_429_patterns() {
    let stderr = "ERROR: Unable to download video subtitles for 'en': HTTP Error 429";
    assert!(is_rate_limited(stderr));
    assert!(is_rate_limited("Too Many Requests"));
}

#[test]
fn is_rate_limited_ignores_other_failures() {
    assert!(!is_rate_limited("ERROR: Sign in to confirm your age"));
    assert!(!is_rate_limited("ERROR: Video unavailable"));
}

#[test]
fn retry_delay_grows_then_caps() {
    let retry_1 = retry_delay_for("abc123", 1);
    let retry_2 = retry_delay_for("abc123", 2);
    let retry_3 = retry_delay_for("abc123", 3);
    let retry_9 = retry_delay_for("abc123", 9);

    assert!(retry_2 > retry_1);
    assert!(retry_3 > retry_2);
    assert!(retry_9 <= MAX_429_BACKOFF_MS + MAX_JITTER_MS);
}

#[test]
fn jitter_is_a_hash_of_the_video_and_the_retry() {
    for (video_id, retry_count) in [("abc123", 1), ("abc123", 2), ("", 0), ("dQw4w9WgXcQ", 3)] {
        let mut hasher = DefaultHasher::new();
        video_id.hash(&mut hasher);
        let number: usize = retry_count;
        number.hash(&mut hasher);
        let expected = hasher.finish() % (MAX_JITTER_MS + 1);
        assert_eq!(deterministic_jitter_ms(video_id, retry_count), expected);
        assert_eq!(
            retry_delay_for(video_id, retry_count),
            retry_delay_with_jitter(retry_count, expected)
        );
    }
}

#[test]
fn retry_delays_double_up_to_the_cap() {
    assert_eq!(retry_delay_with_jitter(1, 7), 2_007);
    assert_eq!(retry_delay_with_jitter(2, 7), 4_007);
    assert_eq!(retry_delay_with_jitter(3, 0), 8_000);
    assert_eq!(retry_delay_with_jitter(9, 300), 16_300);
}

#[test]
fn the_first_request_does_not_wait_and_the_next_one_does() {
    let limiter = SubtitleRateLimiter::new(300);
    assert_eq!(limiter.initial_request_time(1_000), 700);
    assert_eq!(limiter.wait_for_slot(300), 0);
    assert_eq!(limiter.wait_for_slot(100), 200);
    assert_eq!(limiter.wait_for_slot(0), 300);
}

#[test]
fn refused_requests_are_retried_with_growing_delays() {
    let refused = "HTTP Error 429";
    assert_eq!(after_attempt(0, true, "", BASE_429_BACKOFF_MS), SubtitleStep::Finished);
    assert_eq!(
        after_attempt(0, false, "Video unavailable", BASE_429_BACKOFF_MS),
        SubtitleStep::Finished
    );
    assert_eq!(
        after_attempt(0, false, refused, BASE_429_BACKOFF_MS),
        SubtitleStep::Retry { retry_count: 1, delay_ms: 1_000 }
    );
    assert_eq!(
        after_attempt(1, false, refused, BASE_429_BACKOFF_MS),
        SubtitleStep::Retry { retry_count: 2, delay_ms: 2_000 }
    );
    assert_eq!(
        after_attempt(MAX_429_RETRIES, false, refused, BASE_429_BACKOFF_MS),
        SubtitleStep::Finished
    );
}

#[test]
fn wait_for_slot_does_not_delay_first_request() {
    let limiter = SubtitleRateLimiter::new(100);
    let now: u64 = 5_000;
    assert_eq!(limiter.wait_for_slot(now - limiter.initial_request_time(now)), 0);
}

#[test]
fn wait_for_slot_paces_consecutive_requests() {
    let limiter = SubtitleRateLimiter::new(50);
    assert_eq!(limiter.wait_for_slot(0), 50);
    assert_eq!(limiter.wait_for_slot(20), 30);
}

/// Runs attempts, each a success or what it printed, until an outcome stands; gives how many
/// there were, and whether the last one was a success.
fn run_attempts(outcome: impl Fn(usize) -> Result<(), &'static str>) -> (usize, bool) {
    let mut retries: usize = 0;
    let mut attempts: usize = 0;
    loop {
        let result = outcome(attempts);
        attempts += 1;
        let success = result.is_ok();
        let stderr = result.err().unwrap_or("");
        match after_attempt(retries, success, stderr, 1) {
            SubtitleStep::Finished => return (attempts, success),
            SubtitleStep::Retry { retry_count, .. } => retries = retry_count,
        }
    }
}

#[test]
fn run_command_returns_immediately_on_success() {
    assert_eq!(run_attempts(|_| Ok(())), (1, true));
}

#[test]
fn run_command_returns_immediately_on_non_429_failure() {
    assert_eq!(run_attempts(|_| Err("")), (1, false));
}

#[test]
fn run_command_retries_on_429_then_succeeds() {
    let outcome = |attempt: usize| if attempt == 0 { Err("HTTP Error 429") } else { Ok(()) };
    assert_eq!(run_attempts(outcome), (2, true));
}

#[test]
fn run_command_gives_up_after_max_retries() {
    assert_eq!(run_attempts(|_| Err("HTTP Error 429")), (MAX_429_RETRIES + 1, false));
}

#[test]
fn parse_vtt_strips_headers_timestamps_and_inline_tags() {
    let vtt = "WEBVTT\nKind: captions\nLanguage: en\n\n00:00:00.000 --> 00:00:02.000 align:start position:0%\nhello<00:00:01.319><c> world</c>\n\n00:00:02.000 --> 00:00:04.000\nhello world\nnext line\n";
    assert_eq!(parse_vtt(vtt), "hello world next line");
}

#[test]
fn parse_vtt_returns_empty_for_metadata_only_input() {
    assert_eq!(parse_vtt("WEBVTT\nKind: captions\n"), "");
    assert_eq!(transcript_from_vtt("WEBVTT\nKind: captions\n"), None);
}

#[test]
fn tags_are_cut_out_of_cue_lines() {
    assert_eq!(strip_vtt_tags("a<b>c</b>d"), "acd");
    assert_eq!(strip_vtt_tags("a<b"), "a");
}

#[test]
fn transcript_clean_transcript_removes_duplicate_adjacent_lines() {
    let raw = "hello\nhello\n\nworld\nworld\nnext";
    assert_eq!(clean_transcript(raw), "hello world next");
}

#[test]
fn clean_transcript_removes_duplicate_adjacent_lines() {
    assert_eq!(clean_transcript("hello\nhello\n\nworld\nworld\nnext"), "hello world next");
}

fn event(texts: &[&str]) -> Json3Event {
    Json3Event {
        segs: Some(
            texts
                .iter()
                .map(|text| Json3Segment { utf8: Some(text.to_string()) })
                .collect(),
        ),
    }
}

#[test]
fn transcript_parse_json3_extracts_plain_text() {
    let subtitle = Json3Subtitle {
        events: Some(vec![event(&["Hello ", "world"]), event(&["\nHello ", "again"])]),
    };
    assert_eq!(
        parse_json3(&subtitle).expect("json3 should parse"),
        "Hello world Hello again"
    );
}

#[test]
fn transcript_parse_json3_rejects_missing_events() {
    let error = parse_json3(&Json3Subtitle { events: None })
        .expect_err("missing events should fail");
    assert!(matches!(error, TranscriptError::MissingSubtitleEvents));
}

#[test]
fn find_subtitle_path_rejects_non_delimited_prefix_match() {
    let video_id = "abc123";
    let error = find_subtitle_path("/work", &vec!["abc123xyz.en.json3".to_string()], video_id)
        .expect_err("non-delimited prefix should fail");

    assert_eq!(error.message(), "no subtitle file found for video abc123");
    assert!(matches!(
        error,
        TranscriptError::SubtitleFileNotFound { video_id: id } if id == video_id
    ));
}

#[test]
fn find_subtitle_path_accepts_dot_delimited_prefix_match() {
    let found_path = find_subtitle_path("/work", &vec!["abc123.en.json3".to_string()], "abc123")
        .expect("dot-delimited prefix should resolve");

    assert_eq!(found_path, "/work/abc123.en.json3");
}

#[test]
fn every_fetch_has_a_directory_of_its_own() {
    let first = unique_fetch_dir("/work", "abc", 7, 1);
    let second = unique_fetch_dir("/work", "abc", 7, 2);
    assert_ne!(first, second);
    assert!(first.starts_with("/work/"));
}

#[test]
fn transcripts_are_fetched_without_the_video() {
    let args = transcript_args("chromium", "/fetch", "abc", "https://www.youtube.com/watch?v=abc");
    assert!(args.contains(&"--skip-download".to_string()));
    assert_eq!(args.last().map(String::as_str), Some("https://www.youtube.com/watch?v=abc"));
}

#[test]
fn transcript_errors_have_their_messages() {
    assert_eq!(
        TranscriptError::SubtitleFetchFailed.message(),
        "yt-dlp failed to fetch subtitles"
    );
    assert_eq!(TranscriptError::Io("x".to_string()).message(), "I/O error: x");
    assert_eq!(TranscriptError::Json("x".to_string()).message(), "JSON parse error: x");
    assert_eq!(
        TranscriptError::MissingSubtitleEvents.message(),
        "subtitle payload does not contain events"
    );
}

#[test]
fn cleaning_a_clean_transcript_changes_nothing() {
    for text in ["", " \n ", "one", " a \n a\nb\n\nb \nc d\n", "x\r\nx\r\ny z"] {
        let once = clean_transcript(text);
        assert_eq!(clean_transcript(&once), once);
    }
    assert_eq!(clean_transcript(" a \n a\nb\n\nb \nc d\n"), "a b c d");
}

#[test]
fn metadata_lines_leave_a_transcript_as_it_is() {
    let speech = ["hello", "hello", "world"];
    for metadata in ["WEBVTT", "Kind: captions", "00:00:00.000 --> 00:00:02.000", ""] {
        for at in 0..=speech.len() {
            let mut lines = speech.to_vec();
            lines.insert(at, metadata);
            assert_eq!(parse_vtt(&lines.join("\n")), "hello world");
        }
    }
}

#[test]
fn jittered_delays_stay_within_their_step() {
    for video_id in ["", "abc123", "dQw4w9WgXcQ"] {
        let bases = [2_000, 2_000, 4_000, 8_000, 16_000, 16_000];
        for (retry_count, base) in bases.into_iter().enumerate() {
            let delay = retry_delay_for(video_id, retry_count);
            assert!(base <= delay && delay <= base + MAX_JITTER_MS);
        }
    }
}
