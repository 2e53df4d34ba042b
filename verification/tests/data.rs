use yt_gtk::data::{NewVideo, Tab, Timestamp, Video};

#[test]
fn video_new_decodes_html_entities_in_titles() {
    let video = Video::new(NewVideo {
        video_id: "video-id".to_string(),
        channel_id: "channel-id".to_string(),
        channel_name: "channel-name".to_string(),
        title: "Tom &amp; Jerry &quot;Best Of&quot; &#x27;24".to_string(),
        published: Timestamp { secs: 1_704_067_200, nanos: 0 },
        thumbnail_url: "https://example.com/thumb.jpg".to_string(),
        duration_seconds: None,
    });

    assert_eq!(video.title(), "Tom & Jerry \"Best Of\" '24");
}

#[test]
fn tabs_name_their_stack_pages() {
    assert_eq!(Tab::default(), Tab::Feed);
    assert_eq!(Tab::Feed.stack_child_name(), "feed");
    assert_eq!(Tab::Search.stack_child_name(), "search");
    assert_eq!(Tab::WatchLater.stack_child_name(), "watch-later");
}
