//! Videos, tabs and the saved watch-later list.

use crate::text::{
    blank, blank_texts_are_whitespace, is_blank, is_whitespace, opt_text, texts,
};
use crate::urls;
use vstd::prelude::*;

verus! {

/// A point in time: whole seconds since the Unix epoch, and nanoseconds past them. A leap
/// second is the second before it with nanoseconds of one second and more.
#[derive(Debug, Clone, Copy, PartialEq, Eq, Structural)]
pub struct Timestamp {
    pub secs: i64,
    pub nanos: u32,
}

impl Timestamp {
    /// Whether `self` is strictly later than `other`.
    pub open spec fn is_after(self, other: Timestamp) -> bool {
        self.secs > other.secs || (self.secs == other.secs && self.nanos > other.nanos)
    }

    /// Whether `self` is strictly later than `other`.
    pub fn after(&self, other: &Timestamp) -> (r: bool)
        ensures
            r == self.is_after(*other),
    {
        self.secs > other.secs || (self.secs == other.secs && self.nanos > other.nanos)
    }
}

/// A single video entry. Its title is shown as it stands here, with entities decoded.
#[derive(Debug)]
pub struct Video {
    pub video_id: String,
    pub channel_id: String,
    pub channel_name: String,
    pub title: String,
    pub published: Timestamp,
    pub thumbnail_url: String,
    pub duration_seconds: Option<u32>,
    /// Kept in the video's sidecar file, not in the list of videos.
    pub transcript: Option<String>,
    /// Kept in the video's sidecar file, not in the list of videos.
    pub ai_summary: Option<String>,
    /// Kept in the video's sidecar file, not in the list of videos.
    pub watched: bool,
}

/// What a [`Video`] holds.
#[verifier::ext_equal]
pub struct VideoView {
    pub video_id: Seq<char>,
    pub channel_id: Seq<char>,
    pub channel_name: Seq<char>,
    pub title: Seq<char>,
    pub published: Timestamp,
    pub thumbnail_url: Seq<char>,
    pub duration_seconds: Option<u32>,
    pub transcript: Option<Seq<char>>,
    pub ai_summary: Option<Seq<char>>,
    pub watched: bool,
}

impl View for Video {
    type V = VideoView;

    open spec fn view(&self) -> VideoView {
        VideoView {
            video_id: self.video_id@,
            channel_id: self.channel_id@,
            channel_name: self.channel_name@,
            title: self.title@,
            published: self.published,
            thumbnail_url: self.thumbnail_url@,
            duration_seconds: self.duration_seconds,
            transcript: opt_text(self.transcript),
            ai_summary: opt_text(self.ai_summary),
            watched: self.watched,
        }
    }
}

impl Clone for Video {
    fn clone(&self) -> (r: Self)
        ensures
            r == *self,
    {
        Video {
            video_id: self.video_id.clone(),
            channel_id: self.channel_id.clone(),
            channel_name: self.channel_name.clone(),
            title: self.title.clone(),
            published: self.published,
            thumbnail_url: self.thumbnail_url.clone(),
            duration_seconds: self.duration_seconds,
            transcript: self.transcript.clone(),
            ai_summary: self.ai_summary.clone(),
            watched: self.watched,
        }
    }
}

/// The views of a sequence of videos.
pub open spec fn video_views(videos: Seq<Video>) -> Seq<VideoView> {
    videos.map_values(|video: Video| video@)
}

/// The identifiers of a sequence of videos.
pub open spec fn ids_of(videos: Seq<VideoView>) -> Seq<Seq<char>> {
    videos.map_values(|video: VideoView| video.video_id)
}

/// The identifiers of videos, in their order.
pub fn listed_ids(videos: &Vec<Video>) -> (ids: Vec<String>)
    ensures
        texts(ids@) == ids_of(video_views(videos@)),
{
    let ghost all = ids_of(video_views(videos@));
    let mut ids: Vec<String> = Vec::new();
    let mut i: usize = 0;
    assert(texts(ids@) =~= all.take(0));
    while i < videos.len()
        invariant
            i <= videos.len(),
            all == ids_of(video_views(videos@)),
            texts(ids@) == all.take(i as int),
        decreases videos.len() - i,
    {
        let ghost before = texts(ids@);
        let id = videos[i].video_id.clone();
        ids.push(id);
        assert(texts(ids@) =~= before.push(id@));
        assert(all.take(i + 1) =~= before.push(id@));
        i += 1;
    }
    assert(all.take(all.len() as int) =~= all);
    ids
}

/// Parameters of [`Video::new`].
#[derive(Debug, Clone)]
pub struct NewVideo {
    pub video_id: String,
    pub channel_id: String,
    pub channel_name: String,
    /// The title as it came, with entities.
    pub title: String,
    pub published: Timestamp,
    pub thumbnail_url: String,
    pub duration_seconds: Option<u32>,
}

/// What `quick_xml::escape::unescape` makes of a text: the text with its entities and
/// character references replaced, or nothing where it refuses one.
pub uninterp spec fn xml_unescaped(raw: Seq<char>) -> Option<Seq<char>>;

/// Calls `quick_xml::escape::unescape`. The result is a function of the text alone; a text
/// without an ampersand comes back as it is.
#[verifier::external_body]
fn unescape(raw: &str) -> (r: Option<String>)
    ensures
        opt_text(r) == xml_unescaped(raw@),
        !raw@.contains('&') ==> opt_text(r) == Some(raw@),
{
    quick_xml::escape::unescape(raw).ok().map(|text| text.into_owned())
}

/// The unescaped text, or the raw text where there is none.
pub open spec fn unescaped_or_raw(raw: Seq<char>, unescaped: Option<Seq<char>>) -> Seq<char> {
    match unescaped {
        Some(text) => text,
        None => raw,
    }
}

/// Chooses between the unescaped text and the raw one.
pub fn choose_unescaped(raw: &str, unescaped: Option<String>) -> (r: String)
    ensures
        r@ == unescaped_or_raw(raw@, opt_text(unescaped)),
{
    match unescaped {
        Some(text) => text,
        None => raw.to_owned(),
    }
}

/// `input` with its entities decoded; text that cannot be decoded is left as it is.
pub fn decode_html_entities(input: &str) -> (r: String)
    ensures
        r@ == unescaped_or_raw(input@, xml_unescaped(input@)),
        !input@.contains('&') ==> r@ == input@,
{
    let unescaped = unescape(input);
    choose_unescaped(input, unescaped)
}

impl Video {
    /// A video without transcript, summary and watched mark, its title decoded.
    pub fn new(meta: NewVideo) -> (video: Self)
        ensures
            video@ == (VideoView {
                video_id: meta.video_id@,
                channel_id: meta.channel_id@,
                channel_name: meta.channel_name@,
                title: unescaped_or_raw(meta.title@, xml_unescaped(meta.title@)),
                published: meta.published,
                thumbnail_url: meta.thumbnail_url@,
                duration_seconds: meta.duration_seconds,
                transcript: None,
                ai_summary: None,
                watched: false,
            }),
    {
        let title = decode_html_entities(meta.title.as_str());
        Video {
            video_id: meta.video_id,
            channel_id: meta.channel_id,
            channel_name: meta.channel_name,
            title,
            published: meta.published,
            thumbnail_url: meta.thumbnail_url,
            duration_seconds: meta.duration_seconds,
            transcript: None,
            ai_summary: None,
            watched: false,
        }
    }

    pub fn video_id(&self) -> (r: &str)
        ensures
            r@ == self@.video_id,
    {
        self.video_id.as_str()
    }

    pub fn channel_id(&self) -> (r: &str)
        ensures
            r@ == self@.channel_id,
    {
        self.channel_id.as_str()
    }

    pub fn channel_name(&self) -> (r: &str)
        ensures
            r@ == self@.channel_name,
    {
        self.channel_name.as_str()
    }

    pub fn title(&self) -> (r: &str)
        ensures
            r@ == self@.title,
    {
        self.title.as_str()
    }

    pub fn published(&self) -> (r: Timestamp)
        ensures
            r == self@.published,
    {
        self.published
    }

    pub fn thumbnail_url(&self) -> (r: &str)
        ensures
            r@ == self@.thumbnail_url,
    {
        self.thumbnail_url.as_str()
    }

    /// The duration in seconds, where it is known.
    pub fn duration_seconds(&self) -> (r: Option<u32>)
        ensures
            r == self@.duration_seconds,
    {
        self.duration_seconds
    }

    /// The cached transcript.
    pub fn transcript(&self) -> (r: Option<&str>)
        ensures
            match r {
                Some(text) => self@.transcript == Some(text@),
                None => self@.transcript is None,
            },
    {
        match &self.transcript {
            Some(text) => Some(text.as_str()),
            None => None,
        }
    }

    /// The cached summary.
    pub fn ai_summary(&self) -> (r: Option<&str>)
        ensures
            match r {
                Some(text) => self@.ai_summary == Some(text@),
                None => self@.ai_summary is None,
            },
    {
        match &self.ai_summary {
            Some(text) => Some(text.as_str()),
            None => None,
        }
    }

    pub fn set_transcript(&mut self, transcript: Option<String>)
        ensures
            final(self)@ == (VideoView { transcript: opt_text(transcript), ..old(self)@ }),
    {
        self.transcript = transcript;
    }

    pub fn set_ai_summary(&mut self, ai_summary: Option<String>)
        ensures
            final(self)@ == (VideoView { ai_summary: opt_text(ai_summary), ..old(self)@ }),
    {
        self.ai_summary = ai_summary;
    }

    /// The watch page of the video.
    pub fn watch_url(&self) -> (url: String)
        ensures
            url@ == urls::spec_watch_url(self@.video_id),
    {
        urls::watch_url(self.video_id.as_str())
    }

    /// Whether a summary that is not blank is cached.
    pub fn has_ai_summary(&self) -> (r: bool)
        ensures
            r == has_summary(self@),
    {
        match &self.ai_summary {
            Some(summary) => !blank(summary.as_str()),
            None => false,
        }
    }

    pub fn is_watched(&self) -> (r: bool)
        ensures
            r == self@.watched,
    {
        self.watched
    }

    pub fn set_watched(&mut self, watched: bool)
        ensures
            final(self)@ == (VideoView { watched, ..old(self)@ }),
    {
        self.watched = watched;
    }
}

/// Whether a video has a summary that is not blank.
pub open spec fn has_summary(video: VideoView) -> bool {
    match video.ai_summary {
        Some(summary) => !is_blank(summary),
        None => false,
    }
}

/// The tabs of the main window.
#[derive(Debug, Clone, Copy, PartialEq, Eq, Structural)]
pub enum Tab {
    /// All fetched videos.
    Feed,
    /// The results of the most recent search.
    Search,
    /// The saved list.
    WatchLater,
}

impl Default for Tab {
    fn default() -> (r: Self)
        ensures
            r == Tab::Feed,
    {
        Tab::Feed
    }
}

pub open spec fn stack_name(tab: Tab) -> Seq<char> {
    match tab {
        Tab::Feed => "feed"@,
        Tab::Search => "search"@,
        Tab::WatchLater => "watch-later"@,
    }
}

impl Tab {
    /// The name of the stack page that shows this tab.
    pub fn stack_child_name(self) -> (r: &'static str)
        ensures
            r@ == stack_name(self),
    {
        match self {
            Tab::Feed => "feed",
            Tab::Search => "search",
            Tab::WatchLater => "watch-later",
        }
    }
}

/// The saved watch-later list.
#[derive(Debug)]
pub struct WatchLaterData {
    pub video_ids: Vec<String>,
}

impl Default for WatchLaterData {
    fn default() -> (r: Self)
        ensures
            r.video_ids@ == Seq::<String>::empty(),
    {
        WatchLaterData { video_ids: Vec::new() }
    }
}

/// A video has a summary where one is there and holds anything but whitespace.
pub proof fn blank_summaries_do_not_count(video: VideoView)
    ensures
        video.ai_summary is None ==> !has_summary(video),
        video.ai_summary matches Some(summary) ==> (has_summary(video) <==> exists|k: int|
            0 <= k < summary.len() && !is_whitespace(#[trigger] summary[k])),
{
    if let Some(summary) = video.ai_summary {
        blank_texts_are_whitespace(summary);
    }
}

/// The identifiers of videos stand where the videos stand.
pub proof fn identifiers_are_listed_in_order(videos: Seq<VideoView>, i: int)
    requires
        0 <= i < videos.len(),
    ensures
        ids_of(videos).len() == videos.len(),
        ids_of(videos)[i] == videos[i].video_id,
{
}

/// Times are ordered by their seconds, and within a second by their nanoseconds.
pub proof fn times_are_ordered_by_seconds_first(a: Timestamp, b: Timestamp)
    ensures
        a.secs > b.secs ==> a.is_after(b) && !b.is_after(a),
        a.secs == b.secs && a.nanos > b.nanos ==> a.is_after(b) && !b.is_after(a),
        !a.is_after(a),
        a.is_after(b) || b.is_after(a) || a == b,
{
}

/// The tabs have names of their own.
pub proof fn tabs_are_named_apart(a: Tab, b: Tab)
    ensures
        stack_name(a) == stack_name(b) <==> a == b,
        stack_name(Tab::Feed) == "feed"@,
        stack_name(Tab::Search) == "search"@,
        stack_name(Tab::WatchLater) == "watch-later"@,
{
    reveal_strlit("feed");
    reveal_strlit("search");
    reveal_strlit("watch-later");
    assert("feed"@.len() != "search"@.len());
    assert("feed"@.len() != "watch-later"@.len());
    assert("search"@.len() != "watch-later"@.len());
}

/// A text that cannot be unescaped stays as it is.
pub proof fn unescaped_texts_come_first(raw: Seq<char>, text: Seq<char>)
    ensures
        unescaped_or_raw(raw, Some(text)) == text,
        unescaped_or_raw(raw, None) == raw,
{
}

} // verus!
