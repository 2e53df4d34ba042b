use yt_gtk::cache::storage::{
    cached_video_id_for_path, hydrate_videos_from_sidecars, is_valid_video_id,
    load_missing_watch_later_videos_from_info_json, missing_watch_later_video,
    published_from_upload_date, sanitize_filename, save_video_metadata, save_video_watched,
    video_id_from_info_json_path, video_id_from_sidecar_path, video_id_from_stem,
    video_id_from_subtitle_path, video_id_from_thumbnail_path, CacheCleanup, CacheEntry,
    CacheListing, InfoEntry, Storage, StorageError, VideoMetadataSidecar, YtDlpInfoJson, MAX_TITLE_LENGTH,
};
use yt_gtk::data::{NewVideo, Timestamp, Video, WatchLaterData};
use yt_gtk::ids::IdSet;
use yt_gtk::ui::startup::Saved;

fn names(list: &[&str]) -> Vec<String> {
    list.iter().map(|name| name.to_string()).collect()
}

fn ids(list: &[&str]) -> IdSet {
    IdSet::from_ids(&names(list))
}

fn storage() -> Storage {
    Storage::new_at("/data".to_string(), "/cache".to_string())
}

fn sample_video(video_id: &str) -> Video {
    Video::new(NewVideo {
        video_id: video_id.to_string(),
        channel_id: "UC123".to_string(),
        channel_name: "Channel".to_string(),
        title: format!("Title {video_id}"),
        published: Timestamp { secs: 1_704_067_200, nanos: 0 },
        thumbnail_url: "https://example.com/thumb.jpg".to_string(),
        duration_seconds: Some(120),
    })
}

fn sidecar() -> VideoMetadataSidecar {
    VideoMetadataSidecar {
        transcript: Some("sidecar transcript".to_string()),
        ai_summary: Some("sidecar summary".to_string()),
        watched: false,
    }
}

fn empty_info() -> YtDlpInfoJson {
    YtDlpInfoJson {
        id: None,
        title: None,
        channel_id: None,
        channel: None,
        uploader: None,
        upload_date: None,
        timestamp: None,
        release_timestamp: None,
        thumbnail: None,
        duration_seconds: None,
    }
}

#[test]
fn storage_sanitize_filename_replaces_invalid_characters() {
    let input = r#"title:/\:*?"<>|"#;
    let output = sanitize_filename(input);
    assert_eq!(output, "title__________");
}

#[test]
fn storage_sanitize_filename_trims_and_limits_length() {
    let output = sanitize_filename(&"  very long title ".repeat(12));
    assert!(output.len() <= MAX_TITLE_LENGTH);
    assert!(!output.starts_with(' '));
    assert!(!output.ends_with(' '));
}

#[test]
fn sanitize_filename_replaces_invalid_characters() {
    assert_eq!(sanitize_filename(r#"title:/\:*?"<>|"#), "title__________");
}

#[test]
fn sanitize_filename_trims_and_limits_length() {
    let output = sanitize_filename(&"  very long title ".repeat(12));
    assert!(output.len() <= MAX_TITLE_LENGTH);
    assert!(!output.starts_with(' '));
    assert!(!output.ends_with(' '));
}

#[test]
fn video_id_from_stem_extracts_trailing_youtube_id() {
    for (stem, id) in [
        ("title_with_underscores_C9ww_8cg_5g", Some("C9ww_8cg_5g")),
        ("C9ww_8cg_5g", Some("C9ww_8cg_5g")),
        ("trailing_abc123DEF45", Some("abc123DEF45")),
        ("single_separator", None),
        ("missing_suffix_", None),
        ("invalid_id_prefix_abc123def$%", None),
    ] {
        assert_eq!(video_id_from_stem(stem), id);
    }
}

#[test]
fn sanitizing_twice_changes_nothing_more() {
    for title in ["a/b", "  x  ", "tab\there", ""] {
        let once = sanitize_filename(title);
        assert_eq!(sanitize_filename(&once), once);
    }
}

#[test]
fn storage_video_id_from_stem_extracts_trailing_youtube_id() {
    assert_eq!(
        video_id_from_stem("title_with_underscores_C9ww_8cg_5g"),
        Some("C9ww_8cg_5g")
    );
    assert_eq!(video_id_from_stem("C9ww_8cg_5g"), Some("C9ww_8cg_5g"));
    assert_eq!(
        video_id_from_stem("trailing_abc123DEF45"),
        Some("abc123DEF45")
    );
    assert_eq!(video_id_from_stem("single_separator"), None);
    assert_eq!(video_id_from_stem("missing_suffix_"), None);
    assert_eq!(video_id_from_stem("invalid_id_prefix_abc123def$%"), None);
}

#[test]
fn video_ids_are_eleven_letters_digits_dashes_or_underscores() {
    assert!(is_valid_video_id("C9ww_8cg-5g"));
    assert!(!is_valid_video_id("C9ww_8cg-5"));
    assert!(!is_valid_video_id("C9ww_8cg-5gg"));
    assert!(!is_valid_video_id("C9ww_8cg.5g"));
}

#[test]
fn file_names_give_back_the_video_id() {
    assert_eq!(
        cached_video_id_for_path("title_C9ww_8cg_5g.webm"),
        Some("C9ww_8cg_5g")
    );
    assert_eq!(cached_video_id_for_path("title_C9ww_8cg_5g.txt"), None);
    assert_eq!(
        video_id_from_subtitle_path("title_C9ww_8cg_5g.en.vtt").as_deref(),
        Some("C9ww_8cg_5g")
    );
    assert_eq!(
        video_id_from_info_json_path("title_C9ww_8cg_5g.info.json"),
        Some("C9ww_8cg_5g")
    );
    assert_eq!(video_id_from_info_json_path("title_C9ww_8cg_5g.json"), None);
    assert_eq!(
        video_id_from_thumbnail_path("C9ww_8cg_5g.jpg"),
        Some("C9ww_8cg_5g")
    );
    assert_eq!(video_id_from_thumbnail_path("C9ww_8cg_5g.png"), None);
    assert_eq!(
        video_id_from_sidecar_path("C9ww_8cg_5g.json"),
        Some("C9ww_8cg_5g")
    );
}

#[test]
fn paths_stand_below_the_two_roots() {
    let storage = storage();
    assert_eq!(storage.data_dir(), "/data");
    assert_eq!(storage.watch_later_path(), "/data/watch_later.json");
    assert_eq!(storage.videos_cache_path(), "/cache/videos.json");
    assert_eq!(storage.feed_video_ids_path(), "/cache/feed_video_ids.json");
    assert_eq!(storage.thumbnail_path("id"), "/cache/thumbnails/id.jpg");
    assert_eq!(storage.video_sidecar_path("id"), "/cache/video_sidecars/id.json");
    assert_eq!(storage.video_path("id", "a/b"), "/cache/videos/a_b_id.mkv");
    assert_eq!(storage.transcripts_work_dir(), "/cache/transcripts_work");
}

#[test]
fn storage_collect_cached_video_ids_from_dir_only_keeps_supported_video_files() {
    let ids = Storage::cached_video_ids(&names(&[
        "my_title_C9ww_8cg_5g.mkv",
        "another_title_abc123DEF45.mp4",
        "skip_me.txt",
        "missing_suffix_.webm",
    ]));
    assert!(ids.contains("C9ww_8cg_5g"));
    assert!(ids.contains("abc123DEF45"));
    assert_eq!(ids.sorted().len(), 2);
}

#[test]
fn storage_remove_cached_video_files_removes_all_matching_extensions() {
    let storage = storage();
    let mut files = names(&[
        "title_C9ww_8cg_5g.mkv",
        "title_C9ww_8cg_5g.mp4",
        "other_abc123DEF45.webm",
    ]);

    let removed = storage.remove_cached_video_files(&files, "C9ww_8cg_5g");
    assert_eq!(removed.len(), 2);
    files.retain(|name| !removed.contains(&format!("/cache/videos/{name}")));
    assert!(storage.find_video_path(&files, "C9ww_8cg_5g").is_none());
    assert_eq!(
        storage.find_video_path(&files, "abc123DEF45").as_deref(),
        Some("/cache/videos/other_abc123DEF45.webm")
    );
}

#[test]
fn prune_cached_videos_not_in_watch_later_keeps_only_watch_later_files() {
    let storage = storage();
    let mut files = names(&["keep_C9ww_8cg_5g.mkv", "remove_abc123DEF45.mp4", "ignore.txt"]);

    let removed = storage.prune_cached_videos_not_in_watch_later(&files, &ids(&["C9ww_8cg_5g"]));
    assert_eq!(removed.len(), 1);
    files.retain(|name| !removed.contains(&format!("/cache/videos/{name}")));
    assert!(storage.find_video_path(&files, "C9ww_8cg_5g").is_some());
    assert!(storage.find_video_path(&files, "abc123DEF45").is_none());
    assert!(files.contains(&"ignore.txt".to_string()));
}

#[test]
fn cleanup_unreferenced_cache_files_keeps_only_state_referenced_cache_artifacts() {
    let valid = "C9ww_8cg_5g";
    let stale = "abc123DEF45";
    let file = |name: String| CacheEntry { name: Some(name), is_file: true, is_dir: false };
    let dir = |name: &str| CacheEntry { name: Some(name.to_string()), is_file: false, is_dir: true };
    let cache = CacheListing {
        root: vec![
            file("stray.tmp".to_string()),
            file("videos.json".to_string()),
            dir("unknown_dir"),
            dir("thumbnails"),
            dir("videos"),
            dir("video_sidecars"),
            dir("transcripts_work"),
        ],
        thumbnails: vec![
            file("short.jpg".to_string()),
            file(format!("{valid}.png")),
            file(format!("{stale}.jpg")),
            file(format!("{valid}.jpg")),
        ],
        sidecars: vec![
            file("bad.json".to_string()),
            file(format!("{stale}.json")),
            file(format!("{valid}.json")),
        ],
        videos: vec![
            file("notes.txt".to_string()),
            file("bad_video_name.mkv".to_string()),
            file(format!("stale_{stale}.mkv")),
            file(format!("stale_{stale}.en.vtt")),
            file(format!("stale_{stale}.info.json")),
            file(format!("title_{valid}.mkv")),
            file(format!("title_{valid}.en.vtt")),
            file(format!("title_{valid}.info.json")),
        ],
        transcripts_work: vec![file(format!("{valid}.en.json3"))],
    };

    let kept = ids(&[valid]);
    let cleanup = Storage::cleanup_unreferenced_cache_files(&cache, &kept, &kept);
    assert_eq!(cleanup.root, vec![0, 2]);
    assert_eq!(cleanup.thumbnails, vec![0, 1, 2]);
    assert_eq!(cleanup.sidecars, vec![0, 1]);
    assert_eq!(cleanup.videos, vec![0, 1, 2, 3, 4]);
    assert_eq!(cleanup.transcripts_work, vec![0]);
    assert_eq!(cleanup.removed_count, 12 + 1);

    let left = cleaned(cache, &cleanup);
    assert_eq!(left.root.len() + left.thumbnails.len() + left.sidecars.len(), 5 + 1 + 1);
    assert_eq!(left.videos.len(), 3);
    assert_eq!(left.transcripts_work.len(), 0);
    let again = Storage::cleanup_unreferenced_cache_files(&left, &kept, &kept);
    assert_eq!(again.removed_count, 0);
}

fn without(entries: Vec<CacheEntry>, removed: &[usize]) -> Vec<CacheEntry> {
    let kept = entries.into_iter().enumerate().filter(|(index, _)| !removed.contains(index));
    kept.map(|(_, entry)| entry).collect()
}

fn cleaned(cache: CacheListing, cleanup: &CacheCleanup) -> CacheListing {
    CacheListing {
        root: without(cache.root, &cleanup.root),
        thumbnails: without(cache.thumbnails, &cleanup.thumbnails),
        sidecars: without(cache.sidecars, &cleanup.sidecars),
        videos: without(cache.videos, &cleanup.videos),
        transcripts_work: without(cache.transcripts_work, &cleanup.transcripts_work),
    }
}

#[test]
fn storage_saving_sidecar_fields_does_not_rewrite_videos_cache_file() {
    let storage = storage();
    assert_ne!(storage.video_sidecar_path("abc123"), storage.videos_cache_path());

    let sidecar =
        save_video_metadata(Saved::Missing, Some("Transcript body"), Some("Summary body"))
            .expect("nothing is damaged");
    assert_eq!(sidecar.transcript.as_deref(), Some("Transcript body"));
    assert_eq!(sidecar.ai_summary.as_deref(), Some("Summary body"));
}

#[test]
fn saving_one_sidecar_field_keeps_the_others() {
    let saved = save_video_watched(Saved::Found(sidecar()), true).expect("it can be read");
    let saved =
        save_video_metadata(Saved::Found(saved), None, Some("later")).expect("it can be read");
    assert_eq!(saved.transcript.as_deref(), Some("sidecar transcript"));
    assert_eq!(saved.ai_summary.as_deref(), Some("later"));
    assert!(saved.watched);
    assert!(!saved.is_empty());
    let nothing = save_video_metadata(Saved::Missing, None, None).expect("nothing is damaged");
    assert!(nothing.is_empty());
}

#[test]
fn damaged_sidecars_are_not_written_over() {
    let metadata = save_video_metadata(Saved::Damaged, Some("transcript"), None);
    let watched = save_video_watched(Saved::Damaged, true);
    for saved in [metadata, watched] {
        assert!(matches!(
            saved,
            Err(StorageError::Json(reason)) if reason == "video sidecar cannot be read"
        ));
    }
}

#[test]
fn cleanup_removes_card_files_of_videos_outside_the_feed() {
    let file = |name: &str| CacheEntry {
        name: Some(name.to_string()),
        is_file: true,
        is_dir: false,
    };
    let feed = ids(&["C9ww_8cg_5g"]);
    let later = ids(&["abc123DEF45"]);
    let cache = CacheListing {
        root: Vec::new(),
        thumbnails: vec![file("C9ww_8cg_5g.jpg"), file("abc123DEF45.jpg")],
        sidecars: vec![file("abc123DEF45.json"), file("C9ww_8cg_5g.json")],
        videos: vec![file("one_C9ww_8cg_5g.mkv"), file("two_abc123DEF45.mkv")],
        transcripts_work: Vec::new(),
    };

    let cleanup = Storage::cleanup_unreferenced_cache_files(&cache, &later, &feed);
    assert_eq!(cleanup.thumbnails, vec![1]);
    assert_eq!(cleanup.sidecars, vec![0]);
    assert_eq!(cleanup.videos, vec![0]);
    assert_eq!(cleanup.removed_count, 3);

    let left = cleaned(cache, &cleanup);
    let again = Storage::cleanup_unreferenced_cache_files(&left, &later, &feed);
    assert_eq!(again.removed_count, 0);
}

#[test]
fn feed_video_ids_round_trip_in_display_order() {
    let ids = names(&["b", "a", "c"]);
    let saved = Storage::save_feed_video_ids(&ids);
    assert_eq!(Storage::load_feed_video_ids(Some(saved)), Some(ids));
    assert_eq!(Storage::load_feed_video_ids(None), None);
}

#[test]
fn watch_later_ids_are_saved_in_order_and_come_back() {
    let saved = Storage::save_watch_later(&ids(&["b", "a", "c", "a"]));
    assert_eq!(saved.video_ids, names(&["a", "b", "c"]));
    let loaded = Storage::load_watch_later(Some(WatchLaterData { video_ids: saved.video_ids }));
    assert_eq!(loaded.sorted(), names(&["a", "b", "c"]));
    assert!(Storage::load_watch_later(None).sorted().is_empty());
}

#[test]
fn missing_watch_later_videos_are_rebuilt_from_info_json() {
    let video_id = "C9ww_8cg_5g";
    let entries = vec![InfoEntry {
        name: format!("Local Title_{video_id}.info.json"),
        info: Some(YtDlpInfoJson {
            id: Some(video_id.to_string()),
            title: Some("Local Title".to_string()),
            channel_id: Some("UC123".to_string()),
            channel: Some("Local Channel".to_string()),
            upload_date: Some("20240501".to_string()),
            thumbnail: Some("https://example.com/local.jpg".to_string()),
            duration_seconds: Some(91),
            ..empty_info()
        }),
    }];

    let repaired =
        load_missing_watch_later_videos_from_info_json(entries, &ids(&[video_id]), &ids(&[]));

    assert_eq!(repaired.len(), 1);
    assert_eq!(repaired[0].video_id(), video_id);
    assert_eq!(repaired[0].title(), "Local Title");
    assert_eq!(repaired[0].channel_id(), "UC123");
    assert_eq!(repaired[0].channel_name(), "Local Channel");
    assert_eq!(repaired[0].duration_seconds(), Some(91));
    assert_eq!(repaired[0].published(), Timestamp { secs: 1_714_521_600, nanos: 0 });
}

#[test]
fn missing_watch_later_repair_skips_known_or_unlisted_ids() {
    let video_id = "C9ww_8cg_5g";
    let name = format!("Known_{video_id}.info.json");
    let entries = || {
        vec![InfoEntry {
            name: name.clone(),
            info: Some(YtDlpInfoJson {
                id: Some(video_id.to_string()),
                title: Some("Known".to_string()),
                upload_date: Some("20240501".to_string()),
                ..empty_info()
            }),
        }]
    };
    assert!(load_missing_watch_later_videos_from_info_json(
        entries(),
        &ids(&[video_id]),
        &ids(&[video_id])
    )
    .is_empty());
    assert!(
        load_missing_watch_later_videos_from_info_json(entries(), &ids(&[]), &ids(&[])).is_empty()
    );
    assert_eq!(
        missing_watch_later_video(&name, &ids(&[video_id]), &ids(&[])),
        Some(video_id)
    );
    assert_eq!(
        missing_watch_later_video(&name, &ids(&[video_id]), &ids(&[video_id])),
        None
    );
}

#[test]
fn upload_dates_are_read_as_the_start_of_the_day() {
    assert_eq!(
        published_from_upload_date(Some("20240501")),
        Some(Timestamp { secs: 1_714_521_600, nanos: 0 })
    );
    assert_eq!(published_from_upload_date(Some("2024-05-01")), None);
    assert_eq!(published_from_upload_date(Some("20240231")), None);
    assert_eq!(published_from_upload_date(None), None);
}

#[test]
fn info_files_without_a_time_give_no_video() {
    let info = YtDlpInfoJson { title: Some("Title".to_string()), ..empty_info() };
    assert!(info.into_video("C9ww_8cg_5g").is_none());
    let info = YtDlpInfoJson {
        title: Some("Title".to_string()),
        timestamp: Some(10),
        release_timestamp: Some(20),
        ..empty_info()
    };
    let video = info.into_video("C9ww_8cg_5g").expect("a timestamp is enough");
    assert_eq!(video.published(), Timestamp { secs: 20, nanos: 0 });
}

#[test]
fn storage_load_videos_applies_sidecar_fields() {
    let loaded = hydrate_videos_from_sidecars(vec![sample_video("mixed456")], vec![Some(sidecar())]);
    assert_eq!(loaded.len(), 1);

    let mixed_loaded = loaded
        .iter()
        .find(|video| video.video_id() == "mixed456")
        .expect("Video should be present");
    assert_eq!(mixed_loaded.transcript(), Some("sidecar transcript"));
    assert_eq!(mixed_loaded.ai_summary(), Some("sidecar summary"));
}

#[test]
fn storage_hydrate_videos_from_sidecars_applies_metadata_for_existing_ids() {
    let refreshed_videos = hydrate_videos_from_sidecars(
        vec![sample_video("side789"), sample_video("none0000000")],
        vec![Some(sidecar()), None],
    );

    let hydrated = refreshed_videos
        .iter()
        .find(|video| video.video_id() == "side789")
        .expect("Hydrated video should be present");
    assert_eq!(hydrated.transcript(), Some("sidecar transcript"));
    assert_eq!(hydrated.ai_summary(), Some("sidecar summary"));

    let untouched = refreshed_videos
        .iter()
        .find(|video| video.video_id() == "none0000000")
        .expect("Untouched video should be present");
    assert_eq!(untouched.transcript(), None);
    assert_eq!(untouched.ai_summary(), None);
}
