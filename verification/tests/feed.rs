use yt_gtk::data::{NewVideo, Timestamp, Video};
use yt_gtk::feed::comments::{
    format_comment_threads, CommentItem, CommentPages, CommentSnippet, CommentThreadItem,
    CommentThreadReplies, CommentThreadSnippet, CommentThreadsResponse,
};
use yt_gtk::feed::fetcher::{
    after_fetch, after_lookup, backoff_ms_for_attempt, backoff_ms_with_base, channels_request,
    feed_api_key, finish_feed, has_google_api_key, load_channel_ids,
    parse_iso8601_duration_seconds, plan_channel_fetches, playlist_items_request,
    resolved_uploads_playlist, search_request, should_retry, uploads_playlist_id_for_channel,
    video_durations, video_durations_request, video_ids_from_playlist_items,
    video_ids_from_search_items, videos_from_playlist_items, videos_from_search_items,
    ChannelFetchResult, ChannelItem, ChannelStep, CommentError, FeedError, FetchFailure,
    FetchProgress, PendingChannel, PlaylistItem, PlaylistItemSnippet, PlaylistThumbnails,
    ResourceId, SearchError, SearchItem, Thumbnail, VideoSnippet, YoutubeVideoItem,
    INITIAL_BACKOFF_MS, MAX_FEED_VIDEOS,
};
use yt_gtk::feed::parser::parse_feed;
use yt_gtk::feed::subscriptions::{
    find_subs_file, remove_channel_from_subs_file, subs_file_candidates, SubsFile,
};
use yt_gtk::feed::throttle;

fn strings(list: &[&str]) -> Vec<String> {
    list.iter().map(|item| item.to_string()).collect()
}

fn failure(status: Option<u16>) -> FetchFailure {
    FetchFailure { timeout: false, connect: false, status, message: "it failed".to_string() }
}

fn pending(attempt: usize) -> PendingChannel {
    PendingChannel {
        channel_id: "UCabc".to_string(),
        uploads_playlist_id: "UUabc".to_string(),
        attempt,
    }
}

fn video(id: &str, secs: i64) -> Video {
    Video::new(NewVideo {
        video_id: id.to_string(),
        channel_id: "UC1".to_string(),
        channel_name: "Channel".to_string(),
        title: id.to_string(),
        published: Timestamp { secs, nanos: 0 },
        thumbnail_url: String::new(),
        duration_seconds: None,
    })
}

#[test]
fn parses_common_iso_durations() {
    assert_eq!(parse_iso8601_duration_seconds("PT15M33S"), Some(933));
    assert_eq!(parse_iso8601_duration_seconds("PT2H"), Some(7_200));
    assert_eq!(parse_iso8601_duration_seconds("P1DT2H3M4S"), Some(93_784));
    assert_eq!(parse_iso8601_duration_seconds("P2W"), Some(1_209_600));
    assert_eq!(parse_iso8601_duration_seconds("P1M"), Some(2_592_000));
    assert_eq!(parse_iso8601_duration_seconds("P1Y"), Some(31_536_000));
}

#[test]
fn rejects_invalid_iso_durations() {
    assert_eq!(parse_iso8601_duration_seconds("15M"), None);
    assert_eq!(parse_iso8601_duration_seconds("PT"), Some(0));
}

#[test]
fn rounds_fractional_seconds() {
    assert_eq!(parse_iso8601_duration_seconds("PT1.499S"), Some(1));
    assert_eq!(parse_iso8601_duration_seconds("PT1.5S"), Some(2));
}

#[test]
fn caps_growth_for_small_base() {
    assert_eq!(backoff_ms_with_base(INITIAL_BACKOFF_MS, 1), 500);
    assert_eq!(backoff_ms_with_base(INITIAL_BACKOFF_MS, 2), 1_000);
    assert_eq!(backoff_ms_with_base(INITIAL_BACKOFF_MS, 3), 2_000);
    assert_eq!(backoff_ms_with_base(INITIAL_BACKOFF_MS, 4), 2_000);
}

#[test]
fn preserves_large_base_backoff() {
    assert_eq!(backoff_ms_with_base(20_000, 1), 20_000);
    assert_eq!(backoff_ms_with_base(20_000, 2), 40_000);
    assert_eq!(backoff_ms_with_base(30_000, 2), 60_000);
}

#[test]
fn backoff_depends_on_the_failure() {
    assert_eq!(backoff_ms_for_attempt(1, &failure(Some(429))), 10_000);
    assert_eq!(backoff_ms_for_attempt(1, &failure(Some(503))), 5_000);
    assert_eq!(backoff_ms_for_attempt(1, &failure(Some(408))), 3_000);
    assert_eq!(backoff_ms_for_attempt(1, &failure(None)), 500);
    let timeout = FetchFailure { timeout: true, ..failure(None) };
    assert_eq!(backoff_ms_for_attempt(2, &timeout), 6_000);
    assert!(should_retry(&timeout));
    assert!(should_retry(&failure(Some(500))));
    assert!(!should_retry(&failure(Some(403))));
    assert!(!should_retry(&failure(None)));
}

fn comment(author: &str, text: &str, like_count: u32) -> CommentItem {
    CommentItem {
        snippet: Some(CommentSnippet {
            author_display_name: Some(author.to_string()),
            text_display: Some(text.to_string()),
            published_at: Some(Timestamp { secs: 1_704_067_200, nanos: 0 }),
            like_count: Some(like_count),
        }),
    }
}

fn thread() -> CommentThreadItem {
    CommentThreadItem {
        snippet: Some(CommentThreadSnippet {
            top_level_comment: Some(comment("Ada", "Great talk", 12)),
            total_reply_count: Some(2),
        }),
        replies: Some(CommentThreadReplies {
            comments: vec![comment("Grace", "Agreed", 3)],
        }),
    }
}

#[test]
fn formats_comment_threads_with_replies() {
    let formatted = format_comment_threads(&vec![thread()]);

    assert!(formatted.contains("1. Ada | 12 likes | 2024-01-01"));
    assert!(formatted.contains("Great talk"));
    assert!(formatted.contains("  - Grace | 3 likes | 2024-01-01"));
    assert!(formatted.contains("... 1 more replies not loaded"));
}

#[test]
fn comment_pages_are_loaded_until_there_are_no_more() {
    let pages = CommentPages::new();
    let request = pages.next_request("vid", "KEY").expect("the first page is to be loaded");
    assert_eq!(request.url, "https://www.googleapis.com/youtube/v3/commentThreads");
    assert!(request.query.contains(&("maxResults".to_string(), "50".to_string())));
    let pages = pages.accept(CommentThreadsResponse {
        items: vec![thread()],
        next_page_token: Some("next".to_string()),
    });
    let request = pages.next_request("vid", "KEY").expect("there is another page");
    assert!(request.query.contains(&("pageToken".to_string(), "next".to_string())));
    let pages = pages.accept(CommentThreadsResponse { items: Vec::new(), next_page_token: None });
    assert!(pages.next_request("vid", "KEY").is_none());
    assert_eq!(pages.comments.len(), 1);
}

#[test]
fn uploads_playlists_follow_from_channel_ids() {
    assert_eq!(uploads_playlist_id_for_channel("UCabc").as_deref(), Some("UUabc"));
    assert_eq!(uploads_playlist_id_for_channel("abc"), None);
    let plan = plan_channel_fetches(&strings(&["UCabc", "nope"]));
    assert_eq!(plan.pending.len(), 1);
    assert_eq!(plan.pending[0].attempt, 1);
    assert!(matches!(
        &plan.invalid[0],
        FetchProgress::Error { channel_id, error }
            if channel_id == "nope"
                && error == "Invalid channel ID. Expected an ID starting with 'UC'."
    ));
}

#[test]
fn channels_are_retried_looked_up_or_given_up() {
    assert!(matches!(
        after_fetch(pending(1), Ok(vec![video("a", 1)])),
        ChannelStep::Done { progress: FetchProgress::ChannelComplete { count: 1, .. }, .. }
    ));
    assert!(matches!(
        after_fetch(pending(1), Err(failure(Some(503)))),
        ChannelStep::Retry {
            delay_ms: 5_000,
            progress: FetchProgress::RetryScheduled { next_attempt: 2, delay_secs: 5, .. },
            ..
        }
    ));
    assert!(matches!(
        after_fetch(pending(3), Err(failure(Some(503)))),
        ChannelStep::GiveUp { .. }
    ));
    assert!(matches!(
        after_fetch(pending(1), Err(failure(Some(403)))),
        ChannelStep::GiveUp { .. }
    ));
    assert!(matches!(
        after_fetch(pending(1), Err(failure(Some(404)))),
        ChannelStep::LookUpPlaylist { .. }
    ));
    match after_lookup(pending(1), failure(Some(404)), Some("UUother".to_string())) {
        ChannelStep::Retry { pending, delay_ms, .. } => {
            assert_eq!(pending.uploads_playlist_id, "UUother");
            assert_eq!(pending.attempt, 2);
            assert_eq!(delay_ms, 0);
        }
        other => panic!("unexpected step {other:?}"),
    }
    assert!(matches!(
        after_lookup(pending(1), failure(Some(404)), Some("UUabc".to_string())),
        ChannelStep::GiveUp { .. }
    ));
    assert!(matches!(
        after_lookup(pending(3), failure(Some(404)), Some("UUother".to_string())),
        ChannelStep::GiveUp { .. }
    ));
}

#[test]
fn the_feed_is_newest_first_and_bounded() {
    let videos = (0..500).map(|n| video(&format!("v{n}"), n)).collect();
    let (feed, progress) =
        finish_feed(vec![ChannelFetchResult::Success { videos }, ChannelFetchResult::Failed], 1);
    assert_eq!(feed.len(), MAX_FEED_VIDEOS);
    assert_eq!(feed[0].video_id(), "v499");
    assert_eq!(feed[399].video_id(), "v100");
    assert!(matches!(
        progress,
        FetchProgress::AllComplete {
            total_videos: 400,
            successful_channels: 1,
            failed_channels: 2
        }
    ));
}

fn snippet(published: Option<i64>) -> VideoSnippet {
    VideoSnippet {
        published_at: published.map(|secs| Timestamp { secs, nanos: 0 }),
        title: Some("A &amp; B".to_string()),
        channel_id: None,
        channel_title: Some("Channel".to_string()),
        thumbnails: Some(PlaylistThumbnails {
            maxres: None,
            standard: None,
            high: Some(Thumbnail { url: "high".to_string() }),
            medium: None,
            default_thumbnail: Some(Thumbnail { url: "default".to_string() }),
        }),
    }
}

fn resource(id: &str) -> Option<ResourceId> {
    Some(ResourceId { video_id: Some(id.to_string()) })
}

#[test]
fn playlist_items_become_videos() {
    let items = || {
        vec![
            PlaylistItem {
                snippet: Some(PlaylistItemSnippet {
                    video: snippet(Some(7)),
                    resource_id: resource("a"),
                }),
            },
            PlaylistItem {
                snippet: Some(PlaylistItemSnippet {
                    video: snippet(None),
                    resource_id: resource("b"),
                }),
            },
            PlaylistItem { snippet: None },
        ]
    };
    assert_eq!(video_ids_from_playlist_items(&items()), strings(&["a", "b"]));
    let durations = video_durations(&vec![
        YoutubeVideoItem { id: Some("a".to_string()), duration: Some("PT1M".to_string()) },
        YoutubeVideoItem { id: Some("b".to_string()), duration: Some("soon".to_string()) },
    ]);
    let videos = videos_from_playlist_items(items(), "UCfallback", &durations);
    assert_eq!(videos.len(), 1);
    assert_eq!(videos[0].title(), "A & B");
    assert_eq!(videos[0].channel_id(), "UCfallback");
    assert_eq!(videos[0].thumbnail_url(), "high");
    assert_eq!(videos[0].duration_seconds(), Some(60));
}

#[test]
fn search_items_become_videos() {
    let items = || {
        vec![
            SearchItem { id: resource("a"), snippet: Some(snippet(Some(7))) },
            SearchItem { id: None, snippet: Some(snippet(Some(8))) },
        ]
    };
    assert_eq!(video_ids_from_search_items(&items()), strings(&["a"]));
    let videos = videos_from_search_items(items(), &Vec::new());
    assert_eq!(videos.len(), 1);
    assert_eq!(videos[0].video_id(), "a");
    assert_eq!(videos[0].duration_seconds(), None);
}

#[test]
fn requests_name_their_parameters() {
    let request = playlist_items_request("UU1", "KEY");
    assert_eq!(request.url, "https://www.googleapis.com/youtube/v3/playlistItems");
    assert_eq!(request.query[1], ("playlistId".to_string(), "UU1".to_string()));
    assert_eq!(request.query[2], ("maxResults".to_string(), "25".to_string()));
    let request = channels_request("UC1", "KEY");
    assert_eq!(request.query[1], ("id".to_string(), "UC1".to_string()));
    let request = search_request("cats", "KEY");
    assert_eq!(request.query[3], ("q".to_string(), "cats".to_string()));
    assert!(video_durations_request(&Vec::new(), "KEY").is_none());
    let request = video_durations_request(&strings(&["a", "b"]), "KEY").expect("two videos");
    assert_eq!(request.query[1], ("id".to_string(), "a,b".to_string()));
}

#[test]
fn uploads_playlists_are_resolved_from_answers() {
    let items = vec![
        ChannelItem { uploads: None },
        ChannelItem { uploads: Some("UU2".to_string()) },
    ];
    assert_eq!(resolved_uploads_playlist(&items).as_deref(), Some("UU2"));
    assert_eq!(resolved_uploads_playlist(&Vec::new()), None);
}

#[test]
fn errors_of_the_feed_have_their_messages() {
    assert_eq!(
        FeedError::MissingApiKey.message(),
        "GOOGLE_API_KEY is not set. Set it before refreshing feeds."
    );
    let error = FeedError::ReadChannelIds { path: "/s".to_string(), source: "gone".to_string() };
    assert_eq!(error.message(), "failed to read channel IDs from /s: gone");
    assert_eq!(
        SearchError::MissingApiKey.message(),
        "GOOGLE_API_KEY is not set. Set it before searching YouTube."
    );
    assert_eq!(
        SearchError::Request("x".to_string()).message(),
        "YouTube search request failed: x"
    );
    assert_eq!(
        CommentError::MissingApiKey.message(),
        "GOOGLE_API_KEY is not set. Set it before loading comments."
    );
    assert_eq!(
        CommentError::Request("x".to_string()).message(),
        "YouTube comments request failed: x"
    );
    assert!(has_google_api_key(&Some("KEY".to_string())));
    assert!(!has_google_api_key(&None));
    assert!(feed_api_key(None).is_err());
}

const FEED: &str = r#"<?xml version="1.0" encoding="UTF-8"?>
<feed xmlns:yt="http://www.youtube.com/xml/schemas/2015" xmlns:media="http://search.yahoo.com/mrss/">
 <author><name>The Channel</name></author>
 <entry>
  <yt:videoId>abc123DEF45</yt:videoId>
  <title>Tom &amp; Jerry</title>
  <author><name>The Channel</name></author>
  <published>2024-01-01T00:00:00+00:00</published>
  <media:group><media:thumbnail url="https://example.com/t.jpg" width="480"></media:thumbnail></media:group>
 </entry>
 <entry>
  <title>No identifier</title>
  <published>2024-01-02T00:00:00+00:00</published>
 </entry>
</feed>"#;

#[test]
fn feeds_are_read_entry_by_entry() {
    let videos = parse_feed(FEED, "UC1");
    assert_eq!(videos.len(), 1);
    assert_eq!(videos[0].video_id(), "abc123DEF45");
    assert_eq!(videos[0].title(), "Tom & Jerry");
    assert_eq!(videos[0].channel_id(), "UC1");
    assert_eq!(videos[0].channel_name(), "The Channel");
    assert_eq!(videos[0].thumbnail_url(), "https://example.com/t.jpg");
    assert_eq!(videos[0].published(), Timestamp { secs: 1_704_067_200, nanos: 0 });
    assert!(parse_feed("not xml", "UC1").is_empty());
}

#[test]
fn malformed_attributes_are_passed_over() {
    let feed = "<entry><videoId>abc</videoId><title>T</title>\
        <published>2024-01-01T00:00:00Z</published>\
        <thumbnail width=1 url=\"a\" url=\"b\"></thumbnail></entry>";
    let videos = parse_feed(feed, "UC1");
    assert_eq!(videos.len(), 1);
    assert_eq!(videos[0].thumbnail_url(), "a");
    assert_eq!(videos[0].channel_name(), "Unknown");
}

#[test]
fn feeds_are_fetched_slowly() {
    assert_eq!(throttle::deterministic_jitter_ms("UC1", 1, 0), 0);
    let seed: u64 = (85 * 131 + 67) * 131 + 49;
    assert_eq!(throttle::deterministic_jitter_ms("UC1", 2, 1_500), (seed + 194) % 1_501);
    assert_eq!(throttle::request_spacing_ms("UC1", 2), 4_000 + (seed + 194) % 1_501);

    let mut turns = throttle::RequestThrottle::new(1_000);
    let first = turns.wait_for_turn("UC1", 1, 1_000);
    let second = turns.wait_for_turn("UC2", 1, 1_001);
    assert_eq!(first, 1_000);
    assert!(second >= first + throttle::MIN_REQUEST_SPACING_MS);
    assert_eq!(turns.wait_for_turn("UC3", 1, 1_000_000), 1_000_000);
}

#[test]
fn feeds_are_retried_with_growing_delays() {
    let jitter = throttle::deterministic_jitter_ms("UC1", 14, 2_000);
    assert_eq!(
        throttle::backoff_ms_for_attempt(1, "UC1", &failure(Some(429))),
        30_000 + jitter
    );
    assert_eq!(
        throttle::backoff_ms_for_attempt(9, "UC1", &failure(Some(429))),
        throttle::MAX_BACKOFF_MS
    );
    let step = throttle::fetch_channel_with_retry("UC1", 1, Ok(FEED.to_string()));
    assert!(matches!(
        step,
        throttle::FeedStep::Done { progress: FetchProgress::ChannelComplete { count: 1, .. }, .. }
    ));
    let step = throttle::fetch_channel_with_retry("UC1", 1, Err(failure(Some(500))));
    assert!(matches!(step, throttle::FeedStep::Retry { .. }));
    let step = throttle::fetch_channel_with_retry("UC1", 3, Err(failure(Some(500))));
    assert!(matches!(step, throttle::FeedStep::GiveUp { .. }));
    let step = throttle::fetch_channel_with_retry("UC1", 1, Err(failure(Some(404))));
    assert!(matches!(step, throttle::FeedStep::GiveUp { .. }));
}

#[test]
fn removed_channels_are_not_loaded_again() {
    let content = "# mine\nUC1\n\n  UC2  \nUC3\n";
    assert_eq!(load_channel_ids(content), strings(&["UC1", "UC2", "UC3"]));
    let after = remove_channel_from_subs_file(content, "UC2");
    assert_eq!(after, "# mine\nUC1\n\nUC3\n");
    assert_eq!(load_channel_ids(&after), strings(&["UC1", "UC3"]));
    assert_eq!(remove_channel_from_subs_file("UC1\nUC2", "UC1"), "UC2");
    assert_eq!(remove_channel_from_subs_file("UC1\r\nUC2\r\n", "UC9"), "UC1\nUC2\n");
}

#[test]
fn the_file_of_channels_is_searched_upwards() {
    let levels = strings(&["/a/b/c/d", "/a/b/c", "/a/b", "/a", "/"]);
    let candidates = subs_file_candidates(Some("/config"), &levels);
    assert_eq!(
        candidates,
        strings(&[
            "/config/youtube-subs.txt",
            "/a/b/c/d/youtube-subs.txt",
            "/a/b/c/youtube-subs.txt",
            "/a/b/youtube-subs.txt",
            "/a/youtube-subs.txt",
        ])
    );
    let found = find_subs_file("/a/b/c/d/x", &candidates, &vec![false, false, true, true, false], true);
    assert!(matches!(found, Ok(SubsFile::Found(path)) if path == "/a/b/c/youtube-subs.txt"));
    match find_subs_file("/a/b/c/d/x", &candidates, &vec![false; 5], true) {
        Ok(SubsFile::Expected { path, warning }) => {
            assert_eq!(path, "/config/youtube-subs.txt");
            assert!(warning.ends_with("refresh will report a readable error."));
        }
        other => panic!("unexpected {other:?}"),
    }
    let candidates = subs_file_candidates(None, &strings(&["/x"]));
    assert_eq!(
        find_subs_file("/x/y", &candidates, &vec![false], false).expect_err("nothing is there"),
        "Could not find youtube-subs.txt relative to executable /x/y. Searched: /x/youtube-subs.txt"
    );
}
