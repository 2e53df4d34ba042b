use yt_gtk::cache::downloader::{
    audio_export_args, check_exit_status, cookies_browser, download_commands, downloads_dir,
    fetch_info_json, finish_download, nice_command, DownloadError,
};
use yt_gtk::cache::storage::{Storage, StorageError};
use yt_gtk::paths::{extension, file_stem, join_path, with_extension};

fn names(list: &[&str]) -> Vec<String> {
    list.iter().map(|name| name.to_string()).collect()
}

#[test]
fn audio_export_args_write_a_titled_mp3_into_the_output_directory() {
    let args = audio_export_args(
        "chromium",
        "/home/user/Downloads",
        "https://www.youtube.com/watch?v=abc",
    );

    assert_eq!(
        args,
        names(&[
            "--cookies-from-browser",
            "chromium",
            "-x",
            "--audio-format",
            "mp3",
            "--audio-quality",
            "256K",
            "--embed-thumbnail",
            "--embed-metadata",
            "--parse-metadata",
            "%(title)s:%(meta_title)s",
            "--parse-metadata",
            "%(uploader)s:%(meta_artist)s",
            "-o",
            "/home/user/Downloads/%(title)s.%(ext)s",
            "https://www.youtube.com/watch?v=abc",
        ])
    );
}

#[test]
fn info_is_printed_without_a_download() {
    assert_eq!(
        fetch_info_json("https://www.youtube.com/watch?v=abc"),
        names(&[
            "--dump-single-json",
            "--skip-download",
            "--extractor-retries",
            "3",
            "--retries",
            "3",
            "--no-playlist",
            "--no-warnings",
            "https://www.youtube.com/watch?v=abc",
        ])
    );
}

#[test]
fn downloads_go_to_a_template_beside_the_video() {
    let commands = download_commands("firefox", "/cache/videos/a_id.mkv", "https://example.com");
    assert!(commands.media.contains(&"/cache/videos/a_id.%(ext)s".to_string()));
    assert!(commands.media.contains(&"firefox".to_string()));
    assert!(!commands.media.contains(&"--write-subs".to_string()));
    assert!(commands.subtitles.contains(&"--write-subs".to_string()));
    assert!(commands.subtitles.contains(&"--skip-download".to_string()));
}

#[test]
fn failed_downloads_report_what_was_printed() {
    assert!(check_exit_status(true, Some(0), "warning").is_ok());
    let error = check_exit_status(false, Some(1), "  no such video \n").expect_err("it failed");
    assert_eq!(error.message(), "yt-dlp failed with exit code Some(1): no such video");
    let error = check_exit_status(false, None, "").expect_err("it was killed");
    assert_eq!(error.message(), "yt-dlp failed with exit code None: ");
    assert_eq!(DownloadError::TimedOut(1800).message(), "yt-dlp timed out after 1800s");
    assert_eq!(DownloadError::Io("x".to_string()).message(), "I/O error: x");
}

#[test]
fn storage_errors_have_their_messages() {
    assert_eq!(
        StorageError::ProjectDirectoriesUnavailable.message(),
        "Could not determine project directories"
    );
    assert_eq!(StorageError::Io("x".to_string()).message(), "I/O error: x");
    assert_eq!(StorageError::Json("x".to_string()).message(), "JSON error: x");
}

#[test]
fn programs_run_nicely_where_they_can() {
    assert_eq!(nice_command("yt-dlp", true), names(&["nice", "-n", "19", "yt-dlp"]));
    assert_eq!(nice_command("yt-dlp", false), names(&["yt-dlp"]));
    assert_eq!(cookies_browser(None), "chromium");
    assert_eq!(cookies_browser(Some("firefox".to_string())), "firefox");
}

#[test]
fn audio_goes_to_the_download_directory() {
    assert_eq!(downloads_dir(Some("/d".to_string()), "/home/me"), "/d");
    assert_eq!(downloads_dir(None, "/home/me"), "/home/me/Downloads");
}

#[test]
fn paths_are_taken_apart_like_file_names() {
    assert_eq!(join_path("/a", "b"), "/a/b");
    assert_eq!(join_path("/a/", "b"), "/a/b");
    assert_eq!(join_path("/a", "/b"), "/b");
    assert_eq!(extension("a.tar.gz"), Some("gz"));
    assert_eq!(extension(".hidden"), None);
    assert_eq!(extension(".."), None);
    assert_eq!(file_stem("a.tar.gz"), "a.tar");
    assert_eq!(with_extension("/x/a.md", "md.lock"), "/x/a.md.lock");
    assert_eq!(with_extension("/x/..", "txt"), "/x/..");
}

#[test]
fn legacy_downloads_are_told_from_current_ones() {
    let files = names(&[
        "old_C9ww_8cg_5g.mp4",
        "both_abc123DEF45.webm",
        "both_abc123DEF45.mkv",
        "notes.txt",
    ]);
    let (downloaded, legacy) = Storage::scan_downloaded_video_ids(&files);
    assert_eq!(downloaded.sorted(), names(&["C9ww_8cg_5g", "abc123DEF45"]));
    assert_eq!(legacy.sorted(), names(&["C9ww_8cg_5g"]));

    let storage = Storage::new_at("/data".to_string(), "/cache".to_string());
    assert_eq!(
        storage.remove_legacy_video_files(&files, "abc123DEF45"),
        names(&["/cache/videos/both_abc123DEF45.webm"])
    );
}

#[test]
fn subtitles_beside_a_download_are_found() {
    let storage = Storage::new_at("/data".to_string(), "/cache".to_string());
    let files = names(&["a_C9ww_8cg_5g.mkv", "a_C9ww_8cg_5g.en.vtt"]);
    assert_eq!(
        storage.find_subtitle_path(&files, "C9ww_8cg_5g").as_deref(),
        Some("/cache/videos/a_C9ww_8cg_5g.en.vtt")
    );
    assert_eq!(storage.find_subtitle_path(&files, "abc123DEF45"), None);
}

#[test]
fn missing_subtitles_fail_no_download() {
    assert!(finish_download(Ok(()), Ok(true)).is_ok());
    assert!(finish_download(Ok(()), Ok(false)).is_ok());
    assert!(finish_download(Ok(()), Err("timed out".to_string())).is_ok());
    for subtitles in [Ok(true), Ok(false), Err("timed out".to_string())] {
        assert!(matches!(
            finish_download(Err(DownloadError::TimedOut(7)), subtitles),
            Err(DownloadError::TimedOut(7))
        ));
    }
}
