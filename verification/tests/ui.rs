use yt_gtk::cache::storage::Storage;
use yt_gtk::data::{NewVideo, Tab, Timestamp, Video};
use yt_gtk::feed::fetcher::{FeedError, FetchProgress};
use yt_gtk::frogpoints::FrogpointsError;
use yt_gtk::ids::IdSet;
use yt_gtk::player::PlaybackEnd;
use yt_gtk::summary::SummaryOutcome;
use yt_gtk::ui::cards::{
    build_video_card, card_flags_for_video, format_time_ago, format_video_duration,
    set_watch_later_toggle_state, thumbnail_candidates, time_and_duration, update_flow_width,
    video_ids_for_tab, watch_later_insert_position,
};
use yt_gtk::ui::grid::{CardStep, TabCards};
use yt_gtk::ui::playback::{play_selected_video, playback_ended};
use yt_gtk::ui::refresh::{
    pay_for_refresh, prepare_refresh, refresh_paid, search_finished, start_feed_refresh,
    start_youtube_search, unsubscribe_question, Activity, RefreshPayment, RefreshStart,
    RefreshStatus, SearchStart,
};
use yt_gtk::ui::startup::{load_state, Saved};
use yt_gtk::ui::state::{AppState, SidecarSave};
use yt_gtk::ui::summary_generator::{
    cached_summary, cached_transcript, finish_summary_generation,
    prepare_summary_generation_video, show_fetched, summarize_request, wait,
    StartSummaryGenerationError, SummaryGenerationMode,
};
use yt_gtk::ui::videos::merge_cached_video_fields;
use yt_gtk::ui::watch_later::{
    apply_watch_later_action, confirm_watch_later_removal, finish_tracked_download,
    needs_download_upgrade, perform_watch_later_toggle, removal_question, resolve_playback_path,
    start_tracked_download, update_watch_later_badge, DownloadBadge, WatchLaterAction,
};

fn strings(list: &[&str]) -> Vec<String> {
    list.iter().map(|item| item.to_string()).collect()
}

fn ids(list: &[&str]) -> IdSet {
    IdSet::from_ids(&strings(list))
}

fn video_on(video_id: &str, published_day: u32) -> Video {
    Video::new(NewVideo {
        video_id: video_id.to_string(),
        channel_id: "channel-id".to_string(),
        channel_name: "channel-name".to_string(),
        title: format!("title-{video_id}"),
        published: Timestamp {
            secs: 1_704_067_200 + (i64::from(published_day) - 1) * 86_400,
            nanos: 0,
        },
        thumbnail_url: "https://example.com/thumb.jpg".to_string(),
        duration_seconds: None,
    })
}

fn video(video_id: &str) -> Video {
    video_on(video_id, 1)
}

fn state_of(videos: Vec<Video>, watch_later: &[&str]) -> AppState {
    let feed = videos.iter().map(|video| video.video_id().to_string()).collect();
    AppState::new(videos, feed, ids(watch_later), IdSet::new(), IdSet::new())
}

fn dated_state(videos: &[(&str, u32)], watch_later: &[&str]) -> AppState {
    state_of(
        videos.iter().map(|(id, day)| video_on(id, *day)).collect(),
        watch_later,
    )
}

fn known(state: &AppState) -> Vec<String> {
    state.videos().iter().map(|video| video.video_id().to_string()).collect()
}

fn storage() -> Storage {
    Storage::new_at("/data".to_string(), "/cache".to_string())
}

#[test]
fn mod_app_state_new_keeps_insertion_order() {
    let state = state_of(vec![video("a"), video("b"), video("c")], &[]);
    assert_eq!(known(&state), strings(&["a", "b", "c"]));
}

#[test]
fn mod_app_state_set_videos_deduplicates_by_video_id() {
    let mut state = state_of(Vec::new(), &[]);
    state.set_videos(vec![video("dup"), video("x"), video("dup")]);
    assert_eq!(known(&state), strings(&["dup", "x"]));
    assert_eq!(*state.feed_video_ids(), strings(&["dup", "x"]));
    assert_eq!(state.videos().len(), 2);
}

#[test]
fn app_state_search_results_do_not_change_feed_ids() {
    let mut state = state_of(vec![video("feed-a"), video("feed-b")], &[]);

    state.set_search_results(vec![video("search-a"), video("feed-a")]);

    assert_eq!(*state.feed_video_ids(), strings(&["feed-a", "feed-b"]));
    assert_eq!(*state.search_video_ids(), strings(&["search-a", "feed-a"]));
    assert!(state.video_by_id("search-a").is_some());
}

#[test]
fn search_results_are_not_saved() {
    let mut state = state_of(vec![video("feed-a")], &["later"]);
    state.set_search_results(vec![video("search-a"), video("later"), video("search-a")]);
    assert_eq!(*state.search_video_ids(), strings(&["search-a", "later"]));
    let saved: Vec<String> = state
        .persistable_videos()
        .iter()
        .map(|video| video.video_id().to_string())
        .collect();
    assert_eq!(saved, strings(&["feed-a", "later"]));
}

#[test]
fn refreshed_feed_preserves_watch_later_metadata_without_changing_feed_ids() {
    let mut state =
        state_of(vec![video("old-watch-later"), video("old-feed")], &["old-watch-later"]);

    state.set_refreshed_feed_videos(vec![video("new-feed")]);

    assert_eq!(*state.feed_video_ids(), strings(&["new-feed"]));
    assert!(state.video_by_id("new-feed").is_some());
    assert!(state.video_by_id("old-watch-later").is_some());
    assert!(state.video_by_id("old-feed").is_none());
    assert_eq!(known(&state), strings(&["new-feed", "old-watch-later"]));
}

#[test]
fn refreshed_videos_are_known_as_they_came() {
    let mut state = state_of(vec![video_on("a", 1), video_on("b", 1)], &["a", "b"]);
    state.set_refreshed_feed_videos(vec![video_on("c", 3), video_on("a", 2)]);
    for (id, day) in [("a", 2), ("b", 1), ("c", 3)] {
        let found = state.video_by_id(id).expect("it is known");
        assert_eq!(found.published(), video_on(id, day).published());
    }
}

#[test]
fn changes_of_videos_are_saved_beside_them() {
    let mut state = state_of(vec![video("a"), video("b")], &[]);
    let (save, result) = state.cache_video_transcript("b", "words".to_string());
    assert!(matches!(
        save,
        SidecarSave::Transcript { video_id, text } if video_id == "b" && text == "words"
    ));
    assert!(result.is_ok());
    let (_, result) = state.cache_video_ai_summary("b", "short".to_string());
    assert!(result.is_ok());
    let (_, result) = state.set_video_watched("b", true);
    assert!(result.is_ok());
    let changed = state.video_by_id("b").expect("it is known");
    assert_eq!(changed.transcript(), Some("words"));
    assert_eq!(changed.ai_summary(), Some("short"));
    assert!(changed.is_watched());
    assert_eq!(known(&state), strings(&["a", "b"]));

    let (save, result) = state.set_video_watched("gone", true);
    assert!(matches!(save, SidecarSave::Watched { watched: true, .. }));
    assert_eq!(
        result.expect_err("there is no such video").message(),
        "Video gone is no longer available"
    );
}

#[test]
fn watch_later_toggles_go_both_ways() {
    let mut state = AppState::new(
        vec![video("a")],
        strings(&["a"]),
        IdSet::new(),
        ids(&["a"]),
        ids(&["a"]),
    );
    let none = IdSet::new();
    let toggle = perform_watch_later_toggle(&mut state, &none, "a");
    assert!(toggle.added && toggle.needs_download && !toggle.deletes_files);
    assert_eq!(update_watch_later_badge(&state), 1);
    let toggle = perform_watch_later_toggle(&mut state, &none, "a");
    assert!(!toggle.added && !toggle.needs_download && toggle.deletes_files);
    assert!(!state.downloaded_video_ids().contains("a"));
    assert!(!state.legacy_video_ids().contains("a"));
    assert_eq!(update_watch_later_badge(&state), 0);
}

#[test]
fn removals_of_downloads_are_confirmed() {
    let mut state = AppState::new(
        vec![video("a"), video("b")],
        strings(&["a", "b"]),
        ids(&["a", "b"]),
        ids(&["a"]),
        IdSet::new(),
    );
    let none = IdSet::new();
    assert_eq!(apply_watch_later_action(&state, &none, "a"), WatchLaterAction::Confirm);
    assert_eq!(apply_watch_later_action(&state, &none, "b"), WatchLaterAction::Toggle);
    assert_eq!(apply_watch_later_action(&state, &ids(&["b"]), "b"), WatchLaterAction::Confirm);
    assert_eq!(apply_watch_later_action(&state, &none, "gone"), WatchLaterAction::Missing);
    assert_eq!(removal_question("T"), "Remove \"T\" from Watch Later?");

    assert!(confirm_watch_later_removal(&mut state, &none, "a").is_some());
    assert!(confirm_watch_later_removal(&mut state, &none, "a").is_none());
    assert!(!state.watch_later().contains("a"));
}

#[test]
fn downloads_are_tracked_to_their_end() {
    let mut state = state_of(vec![video("a")], &["a"]);
    let mut downloads = IdSet::new();
    let path = start_tracked_download(&storage(), &mut downloads, "a", "x/y");
    assert_eq!(path.as_deref(), Some("/cache/videos/x_y_a.mkv"));
    assert!(start_tracked_download(&storage(), &mut downloads, "a", "x/y").is_none());

    let end = finish_tracked_download(&mut state, &mut downloads, "a", true);
    assert_eq!(end.badge, DownloadBadge::Downloaded);
    assert!(end.deletes_legacy_files && !end.deletes_files);
    assert!(state.downloaded_video_ids().contains("a"));
    assert!(!downloads.contains("a"));
}

#[test]
fn files_of_a_running_download_are_deleted_when_it_ends() {
    let mut state = state_of(vec![video("a")], &["a"]);
    let mut downloads = ids(&["a"]);
    let toggle = perform_watch_later_toggle(&mut state, &downloads, "a");
    assert!(!toggle.deletes_files);
    let end = finish_tracked_download(&mut state, &mut downloads, "a", true);
    assert!(end.deletes_files);
    assert_eq!(end.badge, DownloadBadge::Clear);
    assert!(!state.downloaded_video_ids().contains("a"));
}

#[test]
fn legacy_files_of_watch_later_videos_are_upgraded() {
    let state = state_of(vec![video("a"), video("b")], &["a"]);
    assert!(resolve_playback_path(&state, "a", Some("x_a.mp4")));
    assert!(!resolve_playback_path(&state, "a", Some("x_a.mkv")));
    assert!(!resolve_playback_path(&state, "b", Some("x_b.mp4")));
    assert!(!resolve_playback_path(&state, "a", None));
    assert!(needs_download_upgrade(None));
    assert!(needs_download_upgrade(Some("x.webm")));
    assert!(!needs_download_upgrade(Some("x.mkv")));
}

#[test]
fn one_player_runs_per_video() {
    let mut state = state_of(vec![video("a")], &[]);
    let mut playing = IdSet::new();
    assert_eq!(play_selected_video(&state, &mut playing, "a").as_deref(), Some("title-a"));
    assert!(play_selected_video(&state, &mut playing, "a").is_none());
    assert!(play_selected_video(&state, &mut playing, "gone").is_none());
    assert!(!playing.contains("gone"));

    let _ = state.set_video_watched("a", true);
    let end = playback_ended(&mut state, &mut playing, "a", Some(PlaybackEnd::FailedImmediately));
    assert!(matches!(end, Some((SidecarSave::Watched { watched: false, .. }, Ok(())))));
    assert!(!state.video_by_id("a").expect("it is known").is_watched());
    assert!(play_selected_video(&state, &mut playing, "a").is_some());
    assert!(playback_ended(&mut state, &mut playing, "a", Some(PlaybackEnd::Watched)).is_none());
}

#[test]
fn format_video_duration_omits_hours_when_under_an_hour() {
    assert_eq!(format_video_duration(0), "0:00");
    assert_eq!(format_video_duration(59), "0:59");
    assert_eq!(format_video_duration(61), "1:01");
    assert_eq!(format_video_duration(3599), "59:59");
}

#[test]
fn format_video_duration_includes_zero_padded_hours() {
    assert_eq!(format_video_duration(3600), "1:00:00");
    assert_eq!(format_video_duration(3661), "1:01:01");
    assert_eq!(format_video_duration(7 * 3600 + 9 * 60 + 5), "7:09:05");
}

#[test]
fn cards_say_how_old_and_how_long_videos_are() {
    let ages = [
        (0, "now ago"),
        (-10, "now ago"),
        (-11, "11 seconds ago"),
        (45, "45 seconds ago"),
        (-46, "a minute ago"),
        (-91, "2 minutes ago"),
        (-2_700, "45 minutes ago"),
        (-2_701, "an hour ago"),
        (-5_401, "2 hours ago"),
        (-79_200, "22 hours ago"),
        (-79_201, "a day ago"),
        (-129_601, "2 days ago"),
        (-561_600, "6 days ago"),
        (-561_601, "a week ago"),
        (-907_201, "2 weeks ago"),
        (-29 * 86_400, "4 weeks ago"),
        (-29 * 86_400 - 1, "a month ago"),
        (-45 * 86_400 - 1, "2 months ago"),
        (-345 * 86_400, "11 months ago"),
        (-345 * 86_400 - 1, "a year ago"),
        (-547 * 86_400 - 1, "2 years ago"),
        (-9_223_372_036_854_775, "292471208 years ago"),
    ];
    for (seconds, text) in ages {
        assert_eq!(format_time_ago(seconds), text);
    }
    assert_eq!(format_time_ago(-7_200), "2 hours ago");
    assert_eq!(format_time_ago(-86_400), "a day ago");
    assert_eq!(time_and_duration("a day ago".to_string(), Some(61)), "a day ago • 1:01");
    assert_eq!(time_and_duration("a day ago".to_string(), None), "a day ago");
}

#[test]
fn watch_later_insert_position_orders_by_newest_published_first() {
    // Feed order is a,b,c,d but "d" is newer than "b": published date wins.
    let state = dated_state(&[("a", 1), ("b", 2), ("c", 3), ("d", 4)], &["b", "d"]);

    assert_eq!(watch_later_insert_position(&state, "d"), Some(0));
    assert_eq!(watch_later_insert_position(&state, "b"), Some(1));
}

#[test]
fn watch_later_insert_position_is_none_for_videos_not_in_watch_later() {
    let state = dated_state(&[("a", 1), ("b", 2)], &["b"]);

    assert_eq!(watch_later_insert_position(&state, "a"), None);
    assert_eq!(watch_later_insert_position(&state, "missing"), None);
}

#[test]
fn video_ids_for_watch_later_tab_are_newest_published_first() {
    let state = dated_state(&[("a", 1), ("b", 2), ("c", 3), ("d", 4)], &["b", "d"]);

    assert_eq!(
        video_ids_for_tab(&state, Tab::WatchLater),
        vec!["d".to_string(), "b".to_string()]
    );
}

#[test]
fn video_ids_for_feed_tab_preserves_feed_order() {
    let state = dated_state(&[("c", 3), ("a", 1), ("b", 2)], &[]);

    assert_eq!(
        video_ids_for_tab(&state, Tab::Feed),
        vec!["c".to_string(), "a".to_string(), "b".to_string()]
    );
}

#[test]
fn video_ids_for_search_tab_returns_search_results() {
    let mut state = dated_state(&[("a", 1)], &[]);
    state.set_search_results(vec![video_on("x", 5), video_on("y", 6)]);

    assert_eq!(
        video_ids_for_tab(&state, Tab::Search),
        vec!["x".to_string(), "y".to_string()]
    );
}

#[test]
fn watch_later_order_does_not_depend_on_the_order_of_arrival() {
    let one = dated_state(&[("b", 2), ("a", 2), ("c", 3)], &["a", "b", "c"]);
    let other = dated_state(&[("c", 3), ("a", 2), ("b", 2)], &["a", "b", "c"]);
    let order = strings(&["c", "a", "b"]);
    assert_eq!(video_ids_for_tab(&one, Tab::WatchLater), order);
    assert_eq!(video_ids_for_tab(&other, Tab::WatchLater), order);
}

fn replay(order: &mut Vec<String>, steps: Vec<CardStep>) {
    let put = |order: &mut Vec<String>, id: String, at: usize| {
        let at = at.min(order.len());
        order.insert(at, id);
    };
    for step in steps {
        match step {
            CardStep::Remove { video_id } => order.retain(|id| *id != video_id),
            CardStep::Move { video_id, position } => {
                order.retain(|id| *id != video_id);
                put(order, video_id, position);
            }
            CardStep::Insert { video_id, position } => put(order, video_id, position),
        }
    }
}

#[test]
fn tabs_are_brought_in_step_with_few_changes() {
    let state = dated_state(&[("a", 1), ("b", 2), ("c", 3), ("d", 4)], &[]);
    let mut cards = TabCards::new();
    let mut shown = Vec::new();
    for (desired, expected) in [
        (strings(&["a", "b", "c"]), strings(&["a", "b", "c"])),
        (strings(&["d", "a", "b", "c"]), strings(&["d", "a", "b", "c"])),
        (strings(&["c", "gone", "a"]), strings(&["c", "a"])),
        (strings(&["a", "a", "b"]), strings(&["a", "b"])),
    ] {
        let steps = cards.populate_flow_box(&desired, &state);
        replay(&mut shown, steps);
        assert_eq!(*cards.order(), expected);
        assert_eq!(shown, expected);
    }
    let steps = cards.populate_flow_box(&strings(&["a", "b"]), &state);
    assert!(steps.is_empty());
}

#[test]
fn the_watch_later_tab_takes_note_of_one_video() {
    let mut state = dated_state(&[("a", 1), ("b", 2), ("c", 3)], &["a", "c"]);
    let none = IdSet::new();
    let mut cards = TabCards::new();
    cards.populate_flow_box(&video_ids_for_tab(&state, Tab::WatchLater), &state);
    perform_watch_later_toggle(&mut state, &none, "b");
    let step = cards.sync_watch_later_card(&state, "b");
    assert!(matches!(step, Some(CardStep::Insert { position: 1, .. })));
    assert_eq!(*cards.order(), video_ids_for_tab(&state, Tab::WatchLater));
    assert!(cards.sync_watch_later_card(&state, "b").is_none());
    perform_watch_later_toggle(&mut state, &none, "c");
    assert!(matches!(
        cards.sync_watch_later_card(&state, "c"),
        Some(CardStep::Remove { .. })
    ));
    assert_eq!(*cards.order(), video_ids_for_tab(&state, Tab::WatchLater));
}

#[test]
fn cards_show_the_state_of_their_videos() {
    let mut state = AppState::new(
        vec![video("a")],
        strings(&["a"]),
        ids(&["a"]),
        ids(&["a"]),
        IdSet::new(),
    );
    let _ = state.cache_video_ai_summary("a", "short".to_string());
    let (card, flags) =
        build_video_card(&state, &ids(&["a"]), "a").expect("there is the video");
    assert_eq!(card.title(), "title-a");
    assert!(flags.is_watch_later && flags.is_downloaded && flags.has_ai_summary);
    assert_eq!(flags.download_badge(), DownloadBadge::Downloading);
    let flags = card_flags_for_video(&state, &IdSet::new(), &card);
    assert_eq!(flags.download_badge(), DownloadBadge::Downloaded);
    assert!(build_video_card(&state, &IdSet::new(), "gone").is_none());
    let look = set_watch_later_toggle_state(true);
    assert_eq!(
        (look.label, look.tooltip, look.widget_name),
        ("x", "Remove from Watch Later", "watch-later-toggle-active")
    );
    assert_eq!(set_watch_later_toggle_state(false).label, "+");
    let thumbnails = thumbnail_candidates(&state.videos(), &storage());
    assert_eq!(thumbnails[0].path, "/cache/thumbnails/a.jpg");
    assert_eq!(thumbnails[0].url, "https://example.com/thumb.jpg");
}

#[test]
fn columns_fill_the_viewport() {
    assert_eq!(update_flow_width(0), 320);
    assert_eq!(update_flow_width(352 + 336 - 1), 320);
    assert_eq!(update_flow_width(352 + 336), 656);
    assert_eq!(update_flow_width(1200), 992);
}

#[test]
fn one_activity_runs_at_a_time() {
    let mut activity = Activity::new();
    assert_eq!(start_feed_refresh(&mut activity), RefreshStart::Started);
    assert_eq!(start_feed_refresh(&mut activity), RefreshStart::Busy);
    assert_eq!(RefreshStart::Busy.message(), "A refresh or search is already running.");
    assert!(matches!(start_youtube_search(&mut activity, "cats"), SearchStart::Busy));
    assert!(matches!(start_youtube_search(&mut activity, "  "), SearchStart::Clear));
    activity.end_activity();
    let start = start_youtube_search(&mut activity, " cats ");
    assert_eq!(start.message(), "Searching YouTube for \"cats\"...");
    assert!(!activity.try_begin_activity());
    assert_eq!(search_finished(Some(Ok(3))), "3 search results");
    assert_eq!(search_finished(Some(Err("x".to_string()))), "Search failed: x");
    assert_eq!(search_finished(None), "Search failed");
    assert_eq!(unsubscribe_question("C"), "Unsubscribe from C?");
}

#[test]
fn refreshes_report_their_progress() {
    let mut status = RefreshStatus::new();
    let mut text = |progress: FetchProgress| {
        let update = status.on_progress(&progress);
        (update.text, update.finished, update.refund)
    };
    let complete = || FetchProgress::ChannelComplete { channel: "UC1".to_string(), count: 3 };
    assert_eq!(
        text(FetchProgress::Started { total: 3 }),
        ("Fetching feeds (0/3)...".to_string(), false, false)
    );
    assert_eq!(text(complete()).0, "Fetching feeds (1/3)...");
    assert_eq!(
        text(FetchProgress::Error { channel_id: "UC2".to_string(), error: "x".to_string() }).0,
        "Failed 1 of 3 channels (last: UC2)"
    );
    assert_eq!(
        text(FetchProgress::RetryScheduled {
            channel_id: "UC3".to_string(),
            next_attempt: 2,
            max_attempts: 3,
            delay_secs: 5,
            reason: "x".to_string(),
        })
        .0,
        "Retrying UC3 (2/3) in 5s..."
    );
    assert_eq!(text(complete()).0, "Fetching feeds (3/3, 1 failed)...");
    let end = |failed_channels: usize| FetchProgress::AllComplete {
        total_videos: 40,
        successful_channels: 2,
        failed_channels,
    };
    assert_eq!(text(end(0)), ("40 videos loaded".to_string(), true, false));
    assert_eq!(
        text(end(1)),
        ("40 videos loaded (2 channels ok, 1 failed)".to_string(), true, false)
    );
    assert_eq!(
        text(end(3)),
        (
            "40 videos loaded (2 channels ok, 3 failed; frogpoints refunded)".to_string(),
            true,
            true
        )
    );
    assert_eq!(
        text(FetchProgress::Fatal { error: "x".to_string() }),
        ("Refresh failed (frogpoints refunded): x".to_string(), true, true)
    );
}

#[test]
fn refreshes_that_cannot_succeed_cost_nothing() {
    assert_eq!(prepare_refresh(Ok(strings(&["UC1"])), true), Ok(strings(&["UC1"])));
    assert_eq!(
        prepare_refresh(Ok(Vec::new()), false),
        Err("Refresh blocked: GOOGLE_API_KEY is not set.".to_string())
    );
    let error = FeedError::ReadChannelIds { path: "/s".to_string(), source: "gone".to_string() };
    assert_eq!(
        prepare_refresh(Err(error), false),
        Err("Error: failed to read channel IDs from /s: gone".to_string())
    );
    assert_eq!(refresh_paid(Ok(7)), Ok("Refreshing... (7 frogpoints remaining)".to_string()));
    assert_eq!(
        refresh_paid(Err(FrogpointsError::MissingHome)),
        Err("Refresh blocked: HOME is not set".to_string())
    );
}

#[test]
fn refreshes_are_paid_for_only_where_they_can_succeed() {
    let read = |contents: &str| Some(Ok(contents.to_string()));
    let blocked = |payment: RefreshPayment| match payment {
        RefreshPayment::Blocked { message } => message,
        _ => panic!("the refresh goes on"),
    };
    let channels = || Ok(strings(&["UC1", "UC2"]));

    let missing_key = "Refresh blocked: GOOGLE_API_KEY is not set.";
    assert_eq!(blocked(pay_for_refresh(channels(), false, None)), missing_key);
    assert_eq!(blocked(pay_for_refresh(channels(), false, read("100"))), missing_key);
    let error = FeedError::ReadChannelIds { path: "/s".to_string(), source: "gone".to_string() };
    assert_eq!(
        blocked(pay_for_refresh(Err(error), true, read("100"))),
        "Error: failed to read channel IDs from /s: gone"
    );
    assert_eq!(
        blocked(pay_for_refresh(channels(), true, Some(Err(FrogpointsError::MissingHome)))),
        "Refresh blocked: HOME is not set"
    );
    assert_eq!(
        blocked(pay_for_refresh(channels(), true, read("many"))),
        "Refresh blocked: frogpoints.md must contain a whole number"
    );
    assert_eq!(
        blocked(pay_for_refresh(channels(), true, read("9"))),
        "Refresh blocked: Need 10 frogpoints to refresh, but only 9 remain"
    );

    assert!(matches!(
        pay_for_refresh(channels(), true, None),
        RefreshPayment::ReadBalance { channel_ids } if channel_ids == strings(&["UC1", "UC2"])
    ));
    assert!(matches!(
        pay_for_refresh(channels(), true, read("18\n")),
        RefreshPayment::Debit { channel_ids, balance }
            if channel_ids == strings(&["UC1", "UC2"])
                && balance.points == 8
                && balance.contents == "8\n"
    ));
}

#[test]
fn damaged_files_stop_the_cleanup() {
    let loaded = load_state(
        Saved::Damaged,
        Saved::Found(vec![video("a"), video("b")]),
        Saved::Missing,
    );
    assert!(!loaded.healthy);
    let opened = loaded.open(Vec::new());
    assert!(!opened.cleans_up && !opened.saves_feed_video_ids && !opened.saves_videos);
    assert_eq!(opened.feed_video_ids, strings(&["a", "b"]));
}

#[test]
fn the_window_opens_with_what_was_saved() {
    let loaded = load_state(
        Saved::Found(strings(&["w"])),
        Saved::Found(vec![video("a"), video("b")]),
        Saved::Found(strings(&["b", "gone", "a"])),
    );
    assert!(loaded.known_video_ids().contains("a"));
    let opened = loaded.open(vec![video("w")]);
    assert!(opened.cleans_up && opened.saves_videos && !opened.saves_feed_video_ids);
    assert_eq!(opened.feed_video_ids, strings(&["b", "a"]));
    assert_eq!(opened.videos.len(), 3);
    assert!(opened.watch_later.contains("w"));

    let loaded = load_state(Saved::Missing, Saved::Missing, Saved::Missing);
    assert!(loaded.open(Vec::new()).saves_feed_video_ids);
}

#[test]
fn summary_generator_prepare_request_returns_missing_video_error() {
    let state = state_of(Vec::new(), &[]);
    let mut summaries_in_progress = IdSet::new();

    let result = prepare_summary_generation_video(
        &state,
        &mut summaries_in_progress,
        "missing-video-id",
        SummaryGenerationMode::Prefetch,
    );

    assert!(matches!(
        result,
        Err(StartSummaryGenerationError::MissingVideo)
    ));
}

#[test]
fn summary_generator_prepare_request_skips_prefetch_when_summary_cached() {
    let video_id = "video-id";
    let mut video = video(video_id);
    video.set_ai_summary(Some("cached summary".to_string()));
    let state = state_of(vec![video], &[]);
    let mut summaries_in_progress = IdSet::new();

    let result = prepare_summary_generation_video(
        &state,
        &mut summaries_in_progress,
        video_id,
        SummaryGenerationMode::Prefetch,
    );

    assert!(matches!(
        result,
        Err(StartSummaryGenerationError::AlreadyCached)
    ));
    assert!(!summaries_in_progress.contains(video_id));
}

#[test]
fn summary_generator_prepare_request_skips_prefetch_when_already_running() {
    let video_id = "video-id";
    let state = state_of(vec![video(video_id)], &[]);
    let mut summaries_in_progress = ids(&[video_id]);

    let result = prepare_summary_generation_video(
        &state,
        &mut summaries_in_progress,
        video_id,
        SummaryGenerationMode::Prefetch,
    );

    assert!(matches!(
        result,
        Err(StartSummaryGenerationError::AlreadyInProgress)
    ));
}

#[test]
fn summary_generator_prepare_request_marks_in_progress_for_new_prefetch() {
    let video_id = "video-id";
    let state = state_of(vec![video(video_id)], &[]);
    let mut summaries_in_progress = IdSet::new();

    let result = prepare_summary_generation_video(
        &state,
        &mut summaries_in_progress,
        video_id,
        SummaryGenerationMode::Prefetch,
    );

    assert!(result.is_ok());
    assert!(summaries_in_progress.contains(video_id));
}

#[test]
fn summary_generator_prepare_request_allows_interactive_regeneration_when_cached() {
    let video_id = "video-id";
    let mut video = video(video_id);
    video.set_ai_summary(Some("cached summary".to_string()));
    let state = state_of(vec![video], &[]);
    let mut summaries_in_progress = IdSet::new();

    let result = prepare_summary_generation_video(
        &state,
        &mut summaries_in_progress,
        video_id,
        SummaryGenerationMode::Interactive,
    )
    .expect("interactive generation should start");

    assert_eq!(result.video_id(), video_id);
    assert!(summaries_in_progress.contains(video_id));
}

#[test]
fn prepare_request_refuses_concurrent_interactive_generation() {
    let video_id = "video-id";
    let state = state_of(vec![video(video_id)], &[]);
    let mut summaries_in_progress = ids(&[video_id]);

    let result = prepare_summary_generation_video(
        &state,
        &mut summaries_in_progress,
        video_id,
        SummaryGenerationMode::Interactive,
    );

    assert!(matches!(
        result,
        Err(StartSummaryGenerationError::AlreadyInProgress)
    ));
}

#[test]
fn summaries_are_kept_and_transcripts_are_not_kept_as_summaries() {
    let mut state = state_of(vec![video("a")], &[]);
    let mut running = ids(&["a"]);
    let end = finish_summary_generation(
        &mut state,
        &mut running,
        "a",
        Ok(SummaryOutcome::TranscriptOnly("words".to_string())),
    );
    assert_eq!(
        end.text,
        "No AI provider was available; showing the raw transcript instead.\n\nwords"
    );
    assert!(matches!(end.save, Some(SidecarSave::Transcript { .. })));
    assert_eq!(end.summary_badge, None);
    assert!(!running.contains("a"));
    assert!(!state.video_by_id("a").expect("it is known").has_ai_summary());

    let end = finish_summary_generation(
        &mut state,
        &mut running,
        "a",
        Ok(SummaryOutcome::Summary("short".to_string())),
    );
    assert_eq!((end.text.as_str(), end.summary_badge), ("short", Some(true)));
    let known = state.video_by_id("a").expect("it is known");
    assert_eq!(cached_summary(known).as_deref(), Some("short"));
    assert_eq!(cached_transcript(known, None).as_deref(), Some("words"));

    let end = finish_summary_generation(
        &mut state,
        &mut running,
        "gone",
        Ok(SummaryOutcome::Summary("short".to_string())),
    );
    assert_eq!(end.text, "Error: Video gone is no longer available");
    let end = finish_summary_generation(&mut state, &mut running, "a", wait(None));
    assert_eq!(end.text, "Error: summary task ended without a result");
    assert!(end.save.is_none());
}

#[test]
fn errors_of_starting_have_their_messages() {
    assert_eq!(
        StartSummaryGenerationError::MissingVideo.message(),
        "Video is no longer available."
    );
    assert_eq!(
        StartSummaryGenerationError::AlreadyCached.message(),
        "Summary is already cached."
    );
    assert_eq!(
        StartSummaryGenerationError::AlreadyInProgress.message(),
        "Summary generation is already in progress."
    );
    assert_eq!(show_fetched(Ok("text".to_string())), "text");
    assert_eq!(show_fetched(Err("x".to_string())), "Error: x");
}

#[test]
fn summaries_ask_about_the_video_and_its_subtitles() {
    let request = summarize_request(
        &video("C9ww_8cg_5g"),
        &storage(),
        &strings(&["x_C9ww_8cg_5g.mkv", "x_C9ww_8cg_5g.en.vtt"]),
    );
    assert_eq!(request.video_url, "https://www.youtube.com/watch?v=C9ww_8cg_5g");
    assert_eq!(request.transcripts_work_dir, "/cache/transcripts_work");
    assert_eq!(
        request.local_subtitle_path.as_deref(),
        Some("/cache/videos/x_C9ww_8cg_5g.en.vtt")
    );
}

#[test]
fn cached_texts_fill_what_refreshed_videos_lack() {
    let mut fresh = vec![video("a"), video("b")];
    fresh[1].set_transcript(Some("own".to_string()));
    let mut cached = vec![video("a"), video("b")];
    cached[0].set_ai_summary(Some("short".to_string()));
    cached[1].set_transcript(Some("old".to_string()));
    merge_cached_video_fields(&mut fresh, &cached);
    assert_eq!(fresh[0].ai_summary(), Some("short"));
    assert_eq!(fresh[1].transcript(), Some("own"));
}

#[test]
fn wait_returns_summary_outcome() {
    let outcome = wait(Some(Ok(SummaryOutcome::Summary("hello world".to_string()))))
        .expect("summary should be produced");
    assert!(matches!(outcome, SummaryOutcome::Summary(text) if text == "hello world"));
}

#[test]
fn wait_returns_stream_error() {
    let result = wait(Some(Err("provider failed".to_string())));
    assert_eq!(result.err(), Some("provider failed".to_string()));
}

#[test]
fn wait_reports_dropped_task() {
    assert!(wait(None).is_err());
}
