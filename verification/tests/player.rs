use yt_gtk::player::chapters::{
    build_ffmetadata, collect_chapters, description_times_fit, escape_ffmetadata,
    parse_description_chapters, parse_time_token, Chapter, ChapterSource, ChapterTime, InfoChapter,
    InfoJson,
};
use yt_gtk::player::{
    ipc_argument, ipc_socket_name, is_fatal_open_failure, later_position, mpv_base_command,
    play_video, playback_end, playback_time_from_ipc_line, reply_position, stream_command,
    LocalVideo, PlaybackEnd, PlayerError,
};

#[test]
fn is_fatal_open_failure_detects_known_failure_lines() {
    assert!(is_fatal_open_failure("Failed to open ."));
    assert!(is_fatal_open_failure(
        "[ffmpeg/demuxer] Errors when loading file"
    ));
    assert!(is_fatal_open_failure("Failed to recognize file format."));
    // Case-insensitive substring match.
    assert!(is_fatal_open_failure("FAILED TO OPEN /some/path"));
}

#[test]
fn is_fatal_open_failure_ignores_ordinary_log_lines() {
    assert!(!is_fatal_open_failure("AO: [pipewire] 48000Hz stereo"));
    assert!(!is_fatal_open_failure("Video--vo=gpu (opengl)"));
    assert!(!is_fatal_open_failure("Cache fill: 12.34% (1234 bytes)"));
}

#[test]
fn playback_time_parses_successful_property_response() {
    assert_eq!(
        playback_time_from_ipc_line(r#"{"data":42.5,"error":"success"}"#).map(f64::from_bits),
        Some(42.5)
    );
}

#[test]
fn playback_time_ignores_events_and_errors() {
    assert_eq!(playback_time_from_ipc_line(r#"{"event":"pause"}"#), None);
    assert_eq!(
        playback_time_from_ipc_line(r#"{"error":"property unavailable"}"#),
        None
    );
    assert_eq!(playback_time_from_ipc_line("not json"), None);
    assert_eq!(reply_position(Some("success".to_string()), Some(7)), Some(7));
    assert_eq!(reply_position(Some("no".to_string()), Some(7)), None);
}

#[test]
fn mpv_base_command_sets_expected_flags() {
    let args = mpv_base_command("Example Title");

    assert!(args.contains(&"--title=Example Title".to_string()));
    assert!(args.contains(&"--force-media-title=Example Title".to_string()));
    assert!(args.contains(&"--sub-auto=fuzzy".to_string()));
    assert!(args.contains(&"--sid=auto".to_string()));
}

#[test]
fn stream_command_caps_resolution_at_720p() {
    let args = stream_command("https://www.youtube.com/watch?v=abc", "Example Title");

    assert!(args.contains(&"--ytdl-format=bv*[height<=720]+ba/b[height<=720]".to_string()));
    assert_eq!(
        args.last().map(String::as_str),
        Some("https://www.youtube.com/watch?v=abc")
    );
}

#[test]
fn local_files_are_played_with_their_chapters() {
    let local = LocalVideo {
        path: "/v/a.mkv".to_string(),
        chapters_file: Some("/v/a.ffmetadata".to_string()),
    };
    let args = play_video("abc", "Title", Some(&local));
    assert!(args.contains(&"--chapters-file=/v/a.ffmetadata".to_string()));
    assert_eq!(args.last().map(String::as_str), Some("/v/a.mkv"));
    let args = play_video("abc", "Title", None);
    assert_eq!(
        args.last().map(String::as_str),
        Some("https://www.youtube.com/watch?v=abc")
    );
}

#[test]
fn every_player_has_a_socket_of_its_own() {
    assert_eq!(ipc_socket_name(7, 1), "yt-gtk-mpv-7-1.sock");
    assert_ne!(ipc_socket_name(7, 1), ipc_socket_name(7, 2));
    assert_eq!(ipc_argument("/run/x.sock"), "--input-ipc-server=/run/x.sock");
}

#[test]
fn playback_counts_from_ten_seconds_on() {
    let at = |seconds: f64| Some(seconds.to_bits());
    assert_eq!(playback_end(at(10.0), false, 500), PlaybackEnd::Watched);
    assert_eq!(playback_end(at(9.9), false, 60_000), PlaybackEnd::FailedImmediately);
    assert_eq!(playback_end(None, true, 60_000), PlaybackEnd::FailedImmediately);
    assert_eq!(playback_end(None, false, 10_000), PlaybackEnd::FailedImmediately);
    assert_eq!(playback_end(None, false, 10_001), PlaybackEnd::Watched);
    assert_eq!(later_position(2.0f64.to_bits(), 3.5f64.to_bits()), 3.5f64.to_bits());
    assert_eq!(later_position(2.0f64.to_bits(), (-3.5f64).to_bits()), 2.0f64.to_bits());
    assert_eq!(
        PlayerError::Spawn("gone".to_string()).message(),
        "failed to spawn mpv: gone"
    );
}

#[test]
fn times_are_minutes_or_hours() {
    assert_eq!(parse_time_token("1:02"), Some(62));
    assert_eq!(parse_time_token("[1:02:03]"), Some(3_723));
    assert_eq!(parse_time_token("0:05-"), Some(5));
    assert_eq!(parse_time_token("5"), None);
    assert_eq!(parse_time_token("a:b"), None);
}

#[test]
fn titles_are_escaped_for_the_player() {
    assert_eq!(escape_ffmetadata("a=b;c#d\\e\nf"), "a\\=b\\;c\\#d\\\\e f");
}

#[test]
fn descriptions_name_chapters() {
    let description = "Intro text\n0:00 Start\n1:30 - Middle\n10:00 End = done\n";
    assert!(description_times_fit(description));
    let chapters = parse_description_chapters(description);
    let found: Vec<(u128, &str)> =
        chapters.iter().map(|chapter| (chapter.start, chapter.title.as_str())).collect();
    assert_eq!(found, vec![(0, "Start"), (90, "Middle"), (600, "End \\= done")]);
}

fn time(seconds: i64) -> ChapterTime {
    ChapterTime { order: seconds, millis: seconds * 1000, next_millis: (seconds + 1) * 1000 }
}

#[test]
fn chapters_of_the_info_file_go_first() {
    let info = InfoJson {
        chapters: vec![InfoChapter {
            start_time: Some(time(3)),
            end_time: None,
            title: Some("a;b".to_string()),
        }],
        description: Some("0:00 Start\n1:00 More".to_string()),
    };
    match collect_chapters(&info) {
        ChapterSource::Info(chapters) => assert_eq!(chapters[0].title, "a\\;b"),
        ChapterSource::Description(_) => panic!("the info file has chapters"),
    }
}

#[test]
fn chapters_end_where_the_next_one_starts() {
    let chapters = vec![
        Chapter { start: time(0), end: None, title: "One".to_string() },
        Chapter { start: time(60), end: None, title: "Two".to_string() },
    ];
    assert_eq!(
        build_ffmetadata(&chapters, Some(time(90))).as_deref(),
        Some(
            ";FFMETADATA1\n[CHAPTER]\nTIMEBASE=1/1000\nSTART=0\nEND=60000\ntitle=One\n\
             [CHAPTER]\nTIMEBASE=1/1000\nSTART=60000\nEND=90000\ntitle=Two\n"
        )
    );
    assert_eq!(build_ffmetadata(&Vec::new(), None), None);
}

#[test]
fn titles_are_escaped_piece_by_piece() {
    let title = "a=\\b;\n#c\\";
    for (at, _) in title.char_indices() {
        let (front, back) = title.split_at(at);
        let pieces = format!("{}{}", escape_ffmetadata(front), escape_ffmetadata(back));
        assert_eq!(escape_ffmetadata(title), pieces);
    }
    assert_eq!(escape_ffmetadata(title), "a\\=\\\\b\\; \\#c\\\\");
}
