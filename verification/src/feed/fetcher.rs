//! Fetching of channels and searches: what is asked, what answers mean, what is tried again.

use crate::cache::storage::text_or;
use crate::data::{
    unescaped_or_raw, video_views, xml_unescaped, NewVideo, Timestamp, Video, VideoView,
};
use crate::order::{is_newest_first, newest_first, newest_first_is_a_stable_sort, sort_newest_first};
use crate::text::{
    join, joined, lines, lines_of, lines_part_at_line_feeds, opt_text, same, strip_prefix, texts, to_decimal, decimal, trim,
    trimmed,
};
use crate::urls;
use vstd::prelude::*;

verus! {

/// How many uploads of a channel are asked for.
pub const PLAYLIST_ITEMS_MAX_RESULTS: u32 = 25;

/// How many search results are asked for.
pub const SEARCH_MAX_RESULTS: u32 = 25;

/// How often a channel is fetched before it is given up.
pub const MAX_FETCH_ATTEMPTS: usize = 3;

/// How many channels are fetched at a time.
pub const MAX_CONCURRENT_CHANNEL_FETCHES: usize = 32;

/// How many videos the feed holds.
pub const MAX_FEED_VIDEOS: usize = 400;

/// The delay before a retry for which nothing else is known.
pub const INITIAL_BACKOFF_MS: u64 = 500;

/// How much delays grow at most.
pub const MAX_BACKOFF_MULTIPLIER: u64 = 4;

/// A request to the data service: an address and its query parameters, in order.
#[derive(Debug)]
pub struct ApiRequest {
    pub url: String,
    pub query: Vec<(String, String)>,
}

/// What an [`ApiRequest`] holds.
#[verifier::ext_equal]
pub struct ApiRequestView {
    pub url: Seq<char>,
    pub query: Seq<(Seq<char>, Seq<char>)>,
}

pub open spec fn query_view(query: Seq<(String, String)>) -> Seq<(Seq<char>, Seq<char>)> {
    query.map_values(|pair: (String, String)| (pair.0@, pair.1@))
}

impl View for ApiRequest {
    type V = ApiRequestView;

    open spec fn view(&self) -> ApiRequestView {
        ApiRequestView { url: self.url@, query: query_view(self.query@) }
    }
}

fn request(url: &str) -> (r: ApiRequest)
    ensures
        r@ == (ApiRequestView { url: url@, query: Seq::empty() }),
{
    let r = ApiRequest { url: url.to_owned(), query: Vec::new() };
    assert(r@.query =~= Seq::empty());
    r
}

impl ApiRequest {
    pub(crate) fn with(self, name: &str, value: &str) -> (r: ApiRequest)
        ensures
            r@ == (ApiRequestView { url: self@.url, query: self@.query.push((name@, value@)) }),
    {
        let ApiRequest { url, query } = self;
        let mut query = query;
        let ghost before = query_view(query@);
        query.push((name.to_owned(), value.to_owned()));
        assert(query_view(query@) =~= before.push((name@, value@)));
        ApiRequest { url, query }
    }

    pub(crate) fn to(url: &str) -> (r: ApiRequest)
        ensures
            r@ == (ApiRequestView { url: url@, query: Seq::empty() }),
    {
        request(url)
    }
}

/// Asks for the newest uploads in a channel's uploads playlist.
pub fn playlist_items_request(uploads_playlist_id: &str, api_key: &str) -> (r: ApiRequest)
    ensures
        r@ == (ApiRequestView {
            url: "https://www.googleapis.com/youtube/v3/playlistItems"@,
            query: seq![
                ("part"@, "snippet"@),
                ("playlistId"@, uploads_playlist_id@),
                ("maxResults"@, decimal(PLAYLIST_ITEMS_MAX_RESULTS as nat)),
                ("key"@, api_key@),
            ],
        }),
{
    let max_results = to_decimal(PLAYLIST_ITEMS_MAX_RESULTS as u64);
    let r = request("https://www.googleapis.com/youtube/v3/playlistItems").with(
        "part",
        "snippet",
    ).with("playlistId", uploads_playlist_id).with("maxResults", max_results.as_str()).with(
        "key",
        api_key,
    );
    assert(r@.query =~= seq![
        ("part"@, "snippet"@),
        ("playlistId"@, uploads_playlist_id@),
        ("maxResults"@, decimal(PLAYLIST_ITEMS_MAX_RESULTS as nat)),
        ("key"@, api_key@),
    ]);
    r
}

/// Asks which playlist holds a channel's uploads.
pub fn channels_request(channel_id: &str, api_key: &str) -> (r: ApiRequest)
    ensures
        r@ == (ApiRequestView {
            url: "https://www.googleapis.com/youtube/v3/channels"@,
            query: seq![("part"@, "contentDetails"@), ("id"@, channel_id@), ("key"@, api_key@)],
        }),
{
    let r = request("https://www.googleapis.com/youtube/v3/channels").with(
        "part",
        "contentDetails",
    ).with("id", channel_id).with("key", api_key);
    assert(r@.query =~= seq![
        ("part"@, "contentDetails"@),
        ("id"@, channel_id@),
        ("key"@, api_key@),
    ]);
    r
}

/// Asks for videos that match a query.
pub fn search_request(query: &str, api_key: &str) -> (r: ApiRequest)
    ensures
        r@ == (ApiRequestView {
            url: "https://www.googleapis.com/youtube/v3/search"@,
            query: seq![
                ("part"@, "snippet"@),
                ("type"@, "video"@),
                ("maxResults"@, decimal(SEARCH_MAX_RESULTS as nat)),
                ("q"@, query@),
                ("key"@, api_key@),
            ],
        }),
{
    let max_results = to_decimal(SEARCH_MAX_RESULTS as u64);
    let r = request("https://www.googleapis.com/youtube/v3/search").with("part", "snippet").with(
        "type",
        "video",
    ).with("maxResults", max_results.as_str()).with("q", query).with("key", api_key);
    assert(r@.query =~= seq![
        ("part"@, "snippet"@),
        ("type"@, "video"@),
        ("maxResults"@, decimal(SEARCH_MAX_RESULTS as nat)),
        ("q"@, query@),
        ("key"@, api_key@),
    ]);
    r
}

/// Asks for the durations of videos; there is nothing to ask without videos.
pub fn video_durations_request(video_ids: &Vec<String>, api_key: &str) -> (r: Option<ApiRequest>)
    ensures
        match r {
            None => video_ids@.len() == 0,
            Some(request) => video_ids@.len() > 0 && request@ == (ApiRequestView {
                url: "https://www.googleapis.com/youtube/v3/videos"@,
                query: seq![
                    ("part"@, "contentDetails"@),
                    ("id"@, joined(texts(video_ids@), ","@)),
                    ("key"@, api_key@),
                ],
            }),
        },
{
    if video_ids.len() == 0 {
        return None;
    }
    let csv = join(video_ids, ",");
    let r = request("https://www.googleapis.com/youtube/v3/videos").with(
        "part",
        "contentDetails",
    ).with("id", csv.as_str()).with("key", api_key);
    assert(r@.query =~= seq![
        ("part"@, "contentDetails"@),
        ("id"@, joined(texts(video_ids@), ","@)),
        ("key"@, api_key@),
    ]);
    Some(r)
}

/// Errors of feed fetching.
#[derive(Debug)]
pub enum FeedError {
    /// No API key is set.
    MissingApiKey,
    /// The file of channel identifiers could not be read.
    ReadChannelIds { path: String, source: String },
}

pub open spec fn feed_error_text(error: FeedError) -> Seq<char> {
    match error {
        FeedError::MissingApiKey => "GOOGLE_API_KEY is not set. Set it before refreshing feeds."@,
        FeedError::ReadChannelIds { path, source } => "failed to read channel IDs from "@ + path@
            + ": "@ + source@,
    }
}

impl FeedError {
    pub fn message(&self) -> (r: String)
        ensures
            r@ == feed_error_text(*self),
    {
        match self {
            FeedError::MissingApiKey =>
                "GOOGLE_API_KEY is not set. Set it before refreshing feeds.".to_owned(),
            FeedError::ReadChannelIds {
                path,
                source,
            } => "failed to read channel IDs from ".to_owned().concat(path.as_str()).concat(
                ": ",
            ).concat(source.as_str()),
        }
    }
}

/// The API key, which a refresh of feeds cannot do without.
pub fn feed_api_key(value: Option<String>) -> (r: Result<String, FeedError>)
    ensures
        match value {
            Some(key) => r matches Ok(found) && found@ == key@,
            None => r == Err::<String, FeedError>(FeedError::MissingApiKey),
        },
{
    match value {
        Some(key) => Ok(key),
        None => Err(FeedError::MissingApiKey),
    }
}

/// Whether an API key is set.
pub fn has_google_api_key(value: &Option<String>) -> (r: bool)
    ensures
        r == (*value is Some),
{
    value.is_some()
}

/// Errors of searching.
#[derive(Debug)]
pub enum SearchError {
    /// No API key is set.
    MissingApiKey,
    /// A request failed.
    Request(String),
}

impl SearchError {
    pub fn message(&self) -> (r: String)
        ensures
            r@ == match *self {
                SearchError::MissingApiKey =>
                    "GOOGLE_API_KEY is not set. Set it before searching YouTube."@,
                SearchError::Request(cause) => "YouTube search request failed: "@ + cause@,
            },
    {
        match self {
            SearchError::MissingApiKey =>
                "GOOGLE_API_KEY is not set. Set it before searching YouTube.".to_owned(),
            SearchError::Request(cause) => "YouTube search request failed: ".to_owned().concat(
                cause.as_str(),
            ),
        }
    }
}

/// Errors of loading comments.
#[derive(Debug)]
pub enum CommentError {
    /// No API key is set.
    MissingApiKey,
    /// A request failed.
    Request(String),
}

impl CommentError {
    pub fn message(&self) -> (r: String)
        ensures
            r@ == match *self {
                CommentError::MissingApiKey =>
                    "GOOGLE_API_KEY is not set. Set it before loading comments."@,
                CommentError::Request(cause) => "YouTube comments request failed: "@ + cause@,
            },
    {
        match self {
            CommentError::MissingApiKey =>
                "GOOGLE_API_KEY is not set. Set it before loading comments.".to_owned(),
            CommentError::Request(cause) => "YouTube comments request failed: ".to_owned().concat(
                cause.as_str(),
            ),
        }
    }
}

/// Progress of feed fetching.
#[derive(Debug, Clone)]
pub enum FetchProgress {
    Started { total: usize },
    ChannelComplete { channel: String, count: usize },
    RetryScheduled {
        channel_id: String,
        next_attempt: usize,
        max_attempts: usize,
        delay_secs: u64,
        reason: String,
    },
    Error { channel_id: String, error: String },
    Fatal { error: String },
    AllComplete { total_videos: usize, successful_channels: usize, failed_channels: usize },
}

/// What a [`FetchProgress`] holds.
#[verifier::ext_equal]
pub enum ProgressView {
    Started { total: usize },
    ChannelComplete { channel: Seq<char>, count: usize },
    RetryScheduled {
        channel_id: Seq<char>,
        next_attempt: usize,
        max_attempts: usize,
        delay_secs: u64,
        reason: Seq<char>,
    },
    Error { channel_id: Seq<char>, error: Seq<char> },
    Fatal { error: Seq<char> },
    AllComplete { total_videos: usize, successful_channels: usize, failed_channels: usize },
}

impl View for FetchProgress {
    type V = ProgressView;

    open spec fn view(&self) -> ProgressView {
        match *self {
            FetchProgress::Started { total } => ProgressView::Started { total },
            FetchProgress::ChannelComplete { channel, count } => ProgressView::ChannelComplete {
                channel: channel@,
                count,
            },
            FetchProgress::RetryScheduled {
                channel_id,
                next_attempt,
                max_attempts,
                delay_secs,
                reason,
            } => ProgressView::RetryScheduled {
                channel_id: channel_id@,
                next_attempt,
                max_attempts,
                delay_secs,
                reason: reason@,
            },
            FetchProgress::Error { channel_id, error } => ProgressView::Error {
                channel_id: channel_id@,
                error: error@,
            },
            FetchProgress::Fatal { error } => ProgressView::Fatal { error: error@ },
            FetchProgress::AllComplete {
                total_videos,
                successful_channels,
                failed_channels,
            } => ProgressView::AllComplete { total_videos, successful_channels, failed_channels },
        }
    }
}

/// A channel that is being fetched.
#[derive(Debug)]
pub struct PendingChannel {
    pub channel_id: String,
    pub uploads_playlist_id: String,
    /// The number of the attempt, from one on.
    pub attempt: usize,
}

/// What a [`PendingChannel`] holds.
#[verifier::ext_equal]
pub struct PendingView {
    pub channel_id: Seq<char>,
    pub uploads_playlist_id: Seq<char>,
    pub attempt: usize,
}

impl View for PendingChannel {
    type V = PendingView;

    open spec fn view(&self) -> PendingView {
        PendingView {
            channel_id: self.channel_id@,
            uploads_playlist_id: self.uploads_playlist_id@,
            attempt: self.attempt,
        }
    }
}

/// The playlist of a channel's uploads, which has the channel's identifier but for `UU` in
/// place of `UC`.
pub open spec fn uploads_playlist_of(channel_id: Seq<char>) -> Option<Seq<char>> {
    if "UC"@.is_prefix_of(channel_id) {
        Some("UU"@ + channel_id.skip("UC"@.len() as int))
    } else {
        None
    }
}

/// The playlist of a channel's uploads.
pub fn uploads_playlist_id_for_channel(channel_id: &str) -> (r: Option<String>)
    ensures
        opt_text(r) == uploads_playlist_of(channel_id@),
{
    match strip_prefix(channel_id, "UC") {
        Some(suffix) => Some("UU".to_owned().concat(suffix)),
        None => None,
    }
}

/// Why a request failed.
#[derive(Debug)]
pub struct FetchFailure {
    pub timeout: bool,
    pub connect: bool,
    /// The status of the answer, where one came.
    pub status: Option<u16>,
    pub message: String,
}

pub open spec fn is_server_error(status: Option<u16>) -> bool {
    match status {
        Some(code) => 500 <= code < 600,
        None => false,
    }
}

/// Whether a failure may pass by itself.
pub open spec fn is_transient(failure: FetchFailure) -> bool {
    failure.timeout || failure.connect || failure.status == Some(429u16) || failure.status == Some(
        408u16,
    ) || is_server_error(failure.status)
}

/// Whether a failed request is worth trying again.
pub fn should_retry(failure: &FetchFailure) -> (r: bool)
    ensures
        r == is_transient(*failure),
{
    if failure.timeout || failure.connect {
        return true;
    }
    match failure.status {
        Some(code) => code == 429 || code == 408 || (500 <= code && code < 600),
        None => false,
    }
}

/// How much longer than the base delay an attempt's delay is: it doubles up to the largest
/// multiplier.
pub open spec fn backoff_multiplier(attempt: nat) -> nat {
    if attempt <= 1 {
        1
    } else if attempt == 2 {
        2
    } else {
        MAX_BACKOFF_MULTIPLIER as nat
    }
}

/// The smaller of a number and the largest 64-bit number.
pub open spec fn saturated(n: nat) -> u64 {
    if n <= u64::MAX {
        n as u64
    } else {
        u64::MAX
    }
}

/// The delay before the retry after an attempt.
pub open spec fn backoff(base_ms: u64, attempt: usize) -> u64 {
    saturated(base_ms as nat * backoff_multiplier(attempt as nat))
}

/// `a * b`, or the largest number where that is too large.
pub(crate) fn saturating_product(a: u64, b: u64) -> (r: u64)
    ensures
        r == saturated(a as nat * b as nat),
{
    assert(a * b <= u64::MAX * u64::MAX) by (nonlinear_arith)
        requires
            a <= u64::MAX,
            b <= u64::MAX,
    ;
    let product: u128 = (a as u128) * (b as u128);
    if product <= u64::MAX as u128 {
        product as u64
    } else {
        u64::MAX
    }
}

/// The delay before the retry after an attempt.
pub fn backoff_ms_with_base(base_ms: u64, attempt: usize) -> (r: u64)
    ensures
        r == backoff(base_ms, attempt),
{
    let multiplier: u64 = if attempt <= 1 {
        1
    } else if attempt == 2 {
        2
    } else {
        MAX_BACKOFF_MULTIPLIER
    };
    saturating_product(base_ms, multiplier)
}

/// The delay that a kind of failure calls for at first.
pub open spec fn base_backoff(failure: FetchFailure) -> u64 {
    if failure.timeout || failure.connect {
        3_000
    } else if failure.status == Some(429u16) {
        10_000
    } else if is_server_error(failure.status) {
        5_000
    } else if failure.status == Some(408u16) {
        3_000
    } else {
        INITIAL_BACKOFF_MS
    }
}

/// The delay before the retry after an attempt that failed.
pub fn backoff_ms_for_attempt(attempt: usize, failure: &FetchFailure) -> (r: u64)
    ensures
        r == backoff(base_backoff(*failure), attempt),
{
    let base_ms: u64 = if failure.timeout || failure.connect {
        3_000
    } else {
        match failure.status {
            Some(code) => if code == 429 {
                10_000
            } else if 500 <= code && code < 600 {
                5_000
            } else if code == 408 {
                3_000
            } else {
                INITIAL_BACKOFF_MS
            },
            None => INITIAL_BACKOFF_MS,
        }
    };
    backoff_ms_with_base(base_ms, attempt)
}

/// Delays never shrink from one attempt to the next, and stay within the largest multiplier.
pub proof fn backoff_grows_within_bounds(base_ms: u64, earlier: usize, later: usize)
    requires
        earlier <= later,
    ensures
        backoff(base_ms, earlier) <= backoff(base_ms, later),
        base_ms <= backoff(base_ms, earlier),
        backoff(base_ms, earlier) <= base_ms * MAX_BACKOFF_MULTIPLIER,
{
    let (x, y) = (backoff_multiplier(earlier as nat), backoff_multiplier(later as nat));
    assert(base_ms * x <= base_ms * y) by (nonlinear_arith)
        requires
            x <= y,
            0 <= base_ms,
    ;
    assert(base_ms <= base_ms * x) by (nonlinear_arith)
        requires
            1 <= x,
            0 <= base_ms,
    ;
    assert(base_ms * x <= base_ms * 4) by (nonlinear_arith)
        requires
            x <= 4,
            0 <= base_ms,
    ;
}

/// What happens to a channel next.
#[derive(Debug)]
pub enum ChannelStep {
    /// Its videos are there.
    Done { videos: Vec<Video>, progress: FetchProgress },
    /// Its uploads playlist was not found: look up which one it is.
    LookUpPlaylist { pending: PendingChannel, failure: FetchFailure },
    /// Fetch it again after a delay.
    Retry { pending: PendingChannel, delay_ms: u64, progress: FetchProgress },
    /// It failed for good.
    GiveUp { progress: FetchProgress },
}

/// What a [`ChannelStep`] holds.
#[verifier::ext_equal]
pub enum StepView {
    Done { videos: Seq<VideoView>, progress: ProgressView },
    LookUpPlaylist { pending: PendingView, failure: FetchFailure },
    Retry { pending: PendingView, delay_ms: u64, progress: ProgressView },
    GiveUp { progress: ProgressView },
}

impl View for ChannelStep {
    type V = StepView;

    open spec fn view(&self) -> StepView {
        match *self {
            ChannelStep::Done { videos, progress } => StepView::Done {
                videos: video_views(videos@),
                progress: progress@,
            },
            ChannelStep::LookUpPlaylist { pending, failure } => StepView::LookUpPlaylist {
                pending: pending@,
                failure,
            },
            ChannelStep::Retry { pending, delay_ms, progress } => StepView::Retry {
                pending: pending@,
                delay_ms,
                progress: progress@,
            },
            ChannelStep::GiveUp { progress } => StepView::GiveUp { progress: progress@ },
        }
    }
}

/// A retry of a channel.
pub open spec fn retry_step(
    pending: PendingView,
    playlist: Seq<char>,
    delay_ms: u64,
    reason: Seq<char>,
) -> StepView {
    StepView::Retry {
        pending: PendingView {
            uploads_playlist_id: playlist,
            attempt: (pending.attempt + 1) as usize,
            ..pending
        },
        delay_ms,
        progress: ProgressView::RetryScheduled {
            channel_id: pending.channel_id,
            next_attempt: (pending.attempt + 1) as usize,
            max_attempts: MAX_FETCH_ATTEMPTS,
            delay_secs: ((delay_ms + 999) / 1000) as u64,
            reason,
        },
    }
}

/// What follows a failure that no lookup helps against: a retry where the failure may pass
/// and attempts are left, the end otherwise.
pub open spec fn step_after_failure(pending: PendingView, failure: FetchFailure) -> StepView {
    if is_transient(failure) && pending.attempt < MAX_FETCH_ATTEMPTS {
        retry_step(
            pending,
            pending.uploads_playlist_id,
            backoff(base_backoff(failure), pending.attempt),
            failure.message@,
        )
    } else {
        StepView::GiveUp {
            progress: ProgressView::Error {
                channel_id: pending.channel_id,
                error: failure.message@,
            },
        }
    }
}

/// What follows a fetch.
pub open spec fn step_after_fetch(
    pending: PendingView,
    result: Result<Vec<Video>, FetchFailure>,
) -> StepView {
    match result {
        Ok(videos) => StepView::Done {
            videos: video_views(videos@),
            progress: ProgressView::ChannelComplete {
                channel: pending.channel_id,
                count: videos@.len() as usize,
            },
        },
        Err(failure) => if failure.status == Some(404u16) {
            StepView::LookUpPlaylist { pending, failure }
        } else {
            step_after_failure(pending, failure)
        },
    }
}

/// What follows the lookup of an uploads playlist: a retry with another playlist where one was
/// found and attempts are left.
pub open spec fn step_after_lookup(
    pending: PendingView,
    failure: FetchFailure,
    resolved: Option<Seq<char>>,
) -> StepView {
    match resolved {
        Some(playlist) => if playlist != pending.uploads_playlist_id {
            if pending.attempt >= MAX_FETCH_ATTEMPTS {
                StepView::GiveUp {
                    progress: ProgressView::Error {
                        channel_id: pending.channel_id,
                        error: "Exceeded retry budget while resolving uploads playlist ID."@,
                    },
                }
            } else {
                retry_step(
                    pending,
                    playlist,
                    0,
                    "Resolved uploads playlist ID after 404; queued for retry."@,
                )
            }
        } else {
            step_after_failure(pending, failure)
        },
        None => step_after_failure(pending, failure),
    }
}

fn scheduled_retry(
    pending: PendingChannel,
    playlist: String,
    delay_ms: u64,
    reason: String,
) -> (step: ChannelStep)
    requires
        pending.attempt < MAX_FETCH_ATTEMPTS,
        delay_ms <= 1_000_000,
    ensures
        step@ == retry_step(pending@, playlist@, delay_ms, reason@),
{
    let next_attempt: usize = pending.attempt + 1;
    let delay_secs: u64 = (delay_ms + 999) / 1000;
    ChannelStep::Retry {
        pending: PendingChannel {
            channel_id: pending.channel_id.clone(),
            uploads_playlist_id: playlist,
            attempt: next_attempt,
        },
        delay_ms,
        progress: FetchProgress::RetryScheduled {
            channel_id: pending.channel_id,
            next_attempt,
            max_attempts: MAX_FETCH_ATTEMPTS,
            delay_secs,
            reason,
        },
    }
}

fn after_failure(pending: PendingChannel, failure: FetchFailure) -> (step: ChannelStep)
    ensures
        step@ == step_after_failure(pending@, failure),
{
    if should_retry(&failure) && pending.attempt < MAX_FETCH_ATTEMPTS {
        let delay_ms: u64 = backoff_ms_for_attempt(pending.attempt, &failure);
        proof {
            backoff_grows_within_bounds(base_backoff(failure), pending.attempt, pending.attempt);
        }
        let playlist = pending.uploads_playlist_id.clone();
        scheduled_retry(pending, playlist, delay_ms, failure.message)
    } else {
        ChannelStep::GiveUp {
            progress: FetchProgress::Error {
                channel_id: pending.channel_id,
                error: failure.message,
            },
        }
    }
}

/// What follows a fetch of a channel.
pub fn after_fetch(pending: PendingChannel, result: Result<Vec<Video>, FetchFailure>) -> (step:
    ChannelStep)
    ensures
        step@ == step_after_fetch(pending@, result),
{
    match result {
        Ok(videos) => {
            let count: usize = videos.len();
            ChannelStep::Done {
                videos,
                progress: FetchProgress::ChannelComplete { channel: pending.channel_id, count },
            }
        },
        Err(failure) => {
            let not_found = match failure.status {
                Some(code) => code == 404,
                None => false,
            };
            if not_found {
                ChannelStep::LookUpPlaylist { pending, failure }
            } else {
                after_failure(pending, failure)
            }
        },
    }
}

/// What follows the lookup of a channel's uploads playlist. A lookup that failed resolves
/// nothing.
pub fn after_lookup(
    pending: PendingChannel,
    failure: FetchFailure,
    resolved: Option<String>,
) -> (step: ChannelStep)
    ensures
        step@ == step_after_lookup(pending@, failure, opt_text(resolved)),
{
    if let Some(playlist) = resolved {
        if !same(playlist.as_str(), pending.uploads_playlist_id.as_str()) {
            if pending.attempt >= MAX_FETCH_ATTEMPTS {
                return ChannelStep::GiveUp {
                    progress: FetchProgress::Error {
                        channel_id: pending.channel_id,
                        error: "Exceeded retry budget while resolving uploads playlist ID.".to_owned(),
                    },
                };
            }
            return scheduled_retry(
                pending,
                playlist,
                0,
                "Resolved uploads playlist ID after 404; queued for retry.".to_owned(),
            );
        }
    }
    after_failure(pending, failure)
}

/// A retry is the next attempt at the same channel, and there are no more attempts than the
/// largest number of them; the last one is not tried again, whatever comes of it.
pub proof fn attempts_are_bounded(
    pending: PendingView,
    result: Result<Vec<Video>, FetchFailure>,
    failure: FetchFailure,
    resolved: Option<Seq<char>>,
)
    ensures
        step_after_fetch(pending, result) matches StepView::Retry {
            pending: next,
            ..
        } ==> next.channel_id == pending.channel_id && next.attempt == pending.attempt + 1
            && next.attempt <= MAX_FETCH_ATTEMPTS,
        step_after_lookup(pending, failure, resolved) matches StepView::Retry {
            pending: next,
            ..
        } ==> next.channel_id == pending.channel_id && next.attempt == pending.attempt + 1
            && next.attempt <= MAX_FETCH_ATTEMPTS,
        pending.attempt >= MAX_FETCH_ATTEMPTS ==> !(step_after_fetch(pending, result) is Retry)
            && step_after_lookup(pending, failure, resolved) is GiveUp,
{
}

/// The first fetch of a channel, where its identifier is one.
pub open spec fn first_fetch(channel_id: Seq<char>) -> Option<PendingView> {
    match uploads_playlist_of(channel_id) {
        Some(playlist) => Some(
            PendingView { channel_id, uploads_playlist_id: playlist, attempt: 1 },
        ),
        None => None,
    }
}

/// The channels to fetch, in order.
pub open spec fn channels_to_fetch(channel_ids: Seq<Seq<char>>) -> Seq<PendingView>
    decreases channel_ids.len(),
{
    if channel_ids.len() == 0 {
        Seq::empty()
    } else {
        let pending = channels_to_fetch(channel_ids.drop_last());
        match first_fetch(channel_ids.last()) {
            Some(fetch) => pending.push(fetch),
            None => pending,
        }
    }
}

/// The reports on identifiers that are none, in order.
pub open spec fn invalid_channels(channel_ids: Seq<Seq<char>>) -> Seq<ProgressView>
    decreases channel_ids.len(),
{
    if channel_ids.len() == 0 {
        Seq::empty()
    } else {
        let reports = invalid_channels(channel_ids.drop_last());
        if uploads_playlist_of(channel_ids.last()) is Some {
            reports
        } else {
            reports.push(
                ProgressView::Error {
                    channel_id: channel_ids.last(),
                    error: "Invalid channel ID. Expected an ID starting with 'UC'."@,
                },
            )
        }
    }
}

pub open spec fn pending_views(pending: Seq<PendingChannel>) -> Seq<PendingView> {
    pending.map_values(|channel: PendingChannel| channel@)
}

pub open spec fn progress_views(progress: Seq<FetchProgress>) -> Seq<ProgressView> {
    progress.map_values(|report: FetchProgress| report@)
}

/// What a refresh begins with.
#[derive(Debug)]
pub struct FetchPlan {
    /// The channels to fetch.
    pub pending: Vec<PendingChannel>,
    /// Reports on the channels that cannot be fetched, each of which has failed.
    pub invalid: Vec<FetchProgress>,
}

/// Parts the channels that can be fetched from those that cannot.
pub fn plan_channel_fetches(channel_ids: &Vec<String>) -> (plan: FetchPlan)
    ensures
        pending_views(plan.pending@) == channels_to_fetch(texts(channel_ids@)),
        progress_views(plan.invalid@) == invalid_channels(texts(channel_ids@)),
        plan.pending@.len() + plan.invalid@.len() == channel_ids@.len(),
{
    let ghost all = texts(channel_ids@);
    let mut pending: Vec<PendingChannel> = Vec::new();
    let mut invalid: Vec<FetchProgress> = Vec::new();
    let mut i: usize = 0;
    assert(pending_views(pending@) =~= channels_to_fetch(all.take(0)));
    assert(progress_views(invalid@) =~= invalid_channels(all.take(0)));
    while i < channel_ids.len()
        invariant
            i <= channel_ids.len(),
            all == texts(channel_ids@),
            pending_views(pending@) == channels_to_fetch(all.take(i as int)),
            progress_views(invalid@) == invalid_channels(all.take(i as int)),
            pending@.len() + invalid@.len() == i,
        decreases channel_ids.len() - i,
    {
        let ghost pending_before = pending_views(pending@);
        let ghost invalid_before = progress_views(invalid@);
        assert(all.take(i + 1).drop_last() =~= all.take(i as int));
        assert(all.take(i + 1).last() == channel_ids@[i as int]@);
        let channel_id = channel_ids[i].clone();
        match uploads_playlist_id_for_channel(channel_id.as_str()) {
            Some(uploads_playlist_id) => {
                let fetch = PendingChannel { channel_id, uploads_playlist_id, attempt: 1 };
                pending.push(fetch);
                assert(pending_views(pending@) =~= pending_before.push(fetch@));
            },
            None => {
                let error = "Invalid channel ID. Expected an ID starting with 'UC'.".to_owned();
                let report = FetchProgress::Error { channel_id, error };
                invalid.push(report);
                assert(progress_views(invalid@) =~= invalid_before.push(report@));
            },
        }
        i += 1;
    }
    assert(all.take(all.len() as int) =~= all);
    FetchPlan { pending, invalid }
}

/// How a channel's fetch ended.
#[derive(Debug)]
pub enum ChannelFetchResult {
    Success { videos: Vec<Video> },
    Failed,
}

/// The videos of the channels that succeeded, in the order in which they ended.
pub open spec fn all_videos(results: Seq<ChannelFetchResult>) -> Seq<VideoView>
    decreases results.len(),
{
    if results.len() == 0 {
        Seq::empty()
    } else {
        match results.last() {
            ChannelFetchResult::Success { videos } => all_videos(results.drop_last())
                + video_views(videos@),
            ChannelFetchResult::Failed => all_videos(results.drop_last()),
        }
    }
}

/// How many channels succeeded.
pub open spec fn successes(results: Seq<ChannelFetchResult>) -> nat
    decreases results.len(),
{
    if results.len() == 0 {
        0
    } else {
        successes(results.drop_last()) + if results.last() is Success {
            1nat
        } else {
            0nat
        }
    }
}

/// The feed that videos make: the newest ones, newest first.
pub open spec fn feed_of(videos: Seq<VideoView>) -> Seq<VideoView> {
    let sorted = newest_first(videos);
    if sorted.len() <= MAX_FEED_VIDEOS {
        sorted
    } else {
        sorted.take(MAX_FEED_VIDEOS as int)
    }
}

/// The feed that fetched channels make, and the report that ends a refresh. `invalid` is the
/// number of channels that could not be fetched at all.
pub fn finish_feed(results: Vec<ChannelFetchResult>, invalid: usize) -> (r: (
    Vec<Video>,
    FetchProgress,
))
    requires
        results@.len() + invalid <= usize::MAX,
    ensures
        video_views(r.0@) == feed_of(all_videos(results@)),
        r.1@ == (ProgressView::AllComplete {
            total_videos: r.0@.len() as usize,
            successful_channels: successes(results@) as usize,
            failed_channels: (invalid + results@.len() - successes(results@)) as usize,
        }),
{
    let ghost all = results@;
    let mut results = results;
    let mut videos: Vec<Video> = Vec::new();
    let mut successful_channels: usize = 0;
    let mut failed_channels: usize = invalid;
    let ghost mut done: int = 0;
    assert(video_views(videos@) =~= all_videos(all.take(0)));
    while results.len() > 0
        invariant
            0 <= done <= all.len(),
            results@ == all.skip(done),
            all.len() + invalid <= usize::MAX,
            video_views(videos@) == all_videos(all.take(done)),
            successful_channels == successes(all.take(done)),
            successful_channels + failed_channels == done + invalid,
            failed_channels >= invalid,
        decreases results.len(),
    {
        let ghost before = video_views(videos@);
        let result = results.remove(0);
        proof {
            assert(result == all[done]);
            assert(all.take(done + 1).drop_last() =~= all.take(done));
            assert(results@ =~= all.skip(done + 1));
        }
        match result {
            ChannelFetchResult::Success { videos: fetched } => {
                let ghost more = video_views(fetched@);
                let mut fetched = fetched;
                videos.append(&mut fetched);
                assert(video_views(videos@) =~= before + more);
                successful_channels += 1;
            },
            ChannelFetchResult::Failed => {
                failed_channels += 1;
            },
        }
        proof {
            done = done + 1;
        }
    }
    assert(all.take(done) =~= all);
    let mut feed = sort_newest_first(&videos);
    let ghost sorted = video_views(feed@);
    assert(sorted.len() == feed@.len());
    feed.truncate(MAX_FEED_VIDEOS);
    assert(video_views(feed@) =~= feed_of(all_videos(all)));
    let total_videos: usize = feed.len();
    (feed, FetchProgress::AllComplete { total_videos, successful_channels, failed_channels })
}

/// The feed is short, newest first and made of the given videos, and no video that was left
/// out is newer than one that is in it.
pub proof fn feed_holds_the_newest_videos(videos: Seq<VideoView>)
    ensures
        feed_of(videos).len() <= MAX_FEED_VIDEOS,
        is_newest_first(feed_of(videos)),
        forall|i: int| 0 <= i < feed_of(videos).len() ==> videos.contains(feed_of(videos)[i]),
        ({
            let sorted = newest_first(videos);
            forall|i: int, j: int|
                0 <= i < feed_of(videos).len() <= j < sorted.len() ==> !(
                #[trigger] sorted[j]).published.is_after((#[trigger] feed_of(videos)[i]).published)
        }),
{
    broadcast use vstd::seq_lib::group_to_multiset_ensures;

    let sorted = newest_first(videos);
    newest_first_is_a_stable_sort(videos, Timestamp { secs: 0, nanos: 0 });
    assert forall|i: int| 0 <= i < feed_of(videos).len() implies videos.contains(
        feed_of(videos)[i],
    ) by {
        assert(sorted.contains(sorted[i]));
        assert(sorted.to_multiset().count(sorted[i]) > 0);
    }
    assert forall|i: int, j: int| 0 <= i < feed_of(videos).len() <= j < sorted.len() implies !(
    #[trigger] sorted[j]).published.is_after((#[trigger] feed_of(videos)[i]).published) by {
        assert(feed_of(videos)[i] == sorted[i]);
    }
}

/// A thumbnail of a video.
#[derive(Debug)]
pub struct Thumbnail {
    pub url: String,
}

/// The thumbnails of a video, by size.
#[derive(Debug)]
pub struct PlaylistThumbnails {
    pub maxres: Option<Thumbnail>,
    pub standard: Option<Thumbnail>,
    pub high: Option<Thumbnail>,
    pub medium: Option<Thumbnail>,
    pub default_thumbnail: Option<Thumbnail>,
}

pub open spec fn thumbnail_text(thumbnail: Option<Thumbnail>) -> Option<Seq<char>> {
    match thumbnail {
        Some(thumbnail) => Some(thumbnail.url@),
        None => None,
    }
}

/// The first of the sizes that is there: medium, high, standard, largest, default.
pub open spec fn preferred_thumbnail(thumbnails: PlaylistThumbnails) -> Option<Seq<char>> {
    if thumbnails.medium is Some {
        thumbnail_text(thumbnails.medium)
    } else if thumbnails.high is Some {
        thumbnail_text(thumbnails.high)
    } else if thumbnails.standard is Some {
        thumbnail_text(thumbnails.standard)
    } else if thumbnails.maxres is Some {
        thumbnail_text(thumbnails.maxres)
    } else {
        thumbnail_text(thumbnails.default_thumbnail)
    }
}

impl PlaylistThumbnails {
    /// The address of the thumbnail that cards show.
    pub fn preferred_url(&self) -> (r: Option<String>)
        ensures
            opt_text(r) == preferred_thumbnail(*self),
    {
        if let Some(thumbnail) = &self.medium {
            return Some(thumbnail.url.clone());
        }
        if let Some(thumbnail) = &self.high {
            return Some(thumbnail.url.clone());
        }
        if let Some(thumbnail) = &self.standard {
            return Some(thumbnail.url.clone());
        }
        if let Some(thumbnail) = &self.maxres {
            return Some(thumbnail.url.clone());
        }
        match &self.default_thumbnail {
            Some(thumbnail) => Some(thumbnail.url.clone()),
            None => None,
        }
    }
}

/// What a playlist or a search says of a video.
#[derive(Debug)]
pub struct VideoSnippet {
    pub published_at: Option<Timestamp>,
    pub title: Option<String>,
    pub channel_id: Option<String>,
    pub channel_title: Option<String>,
    pub thumbnails: Option<PlaylistThumbnails>,
}

/// The video that an item names.
#[derive(Debug)]
pub struct ResourceId {
    pub video_id: Option<String>,
}

/// What a playlist says of one of its videos.
#[derive(Debug)]
pub struct PlaylistItemSnippet {
    pub video: VideoSnippet,
    pub resource_id: Option<ResourceId>,
}

/// An item of a playlist.
#[derive(Debug)]
pub struct PlaylistItem {
    pub snippet: Option<PlaylistItemSnippet>,
}

/// A search result.
#[derive(Debug)]
pub struct SearchItem {
    pub id: Option<ResourceId>,
    pub snippet: Option<VideoSnippet>,
}

/// The duration of a video, in seconds.
#[derive(Debug)]
pub struct VideoDuration {
    pub video_id: String,
    pub seconds: u32,
}

/// The last duration in the list that is of a video.
pub open spec fn duration_of(durations: Seq<VideoDuration>, video_id: Seq<char>) -> Option<u32>
    decreases durations.len(),
{
    if durations.len() == 0 {
        None
    } else if durations.last().video_id@ == video_id {
        Some(durations.last().seconds)
    } else {
        duration_of(durations.drop_last(), video_id)
    }
}

/// The duration of a video, where the list has one.
pub fn duration_for(durations: &Vec<VideoDuration>, video_id: &str) -> (r: Option<u32>)
    ensures
        r == duration_of(durations@, video_id@),
{
    let mut end: usize = durations.len();
    assert(durations@.take(end as int) =~= durations@);
    while end > 0
        invariant
            end <= durations.len(),
            duration_of(durations@, video_id@) == duration_of(
                durations@.take(end as int),
                video_id@,
            ),
        decreases end,
    {
        assert(durations@.take(end as int).drop_last() =~= durations@.take(end - 1));
        let entry = &durations[end - 1];
        if same(entry.video_id.as_str(), video_id) {
            return Some(entry.seconds);
        }
        end -= 1;
    }
    None
}

/// The video that a snippet describes, where it tells when the video was published.
pub open spec fn video_of_snippet(
    snippet: VideoSnippet,
    video_id: Seq<char>,
    fallback_channel_id: Seq<char>,
    durations: Seq<VideoDuration>,
) -> Option<VideoView> {
    match snippet.published_at {
        Some(published) => {
            let title = text_or(snippet.title, "Untitled"@);
            let thumbnail = match snippet.thumbnails {
                Some(thumbnails) => preferred_thumbnail(thumbnails),
                None => None,
            };
            Some(
                VideoView {
                    video_id,
                    channel_id: text_or(snippet.channel_id, fallback_channel_id),
                    channel_name: text_or(snippet.channel_title, "Unknown channel"@),
                    title: unescaped_or_raw(title, xml_unescaped(title)),
                    published,
                    thumbnail_url: match thumbnail {
                        Some(url) => url,
                        None => urls::spec_thumbnail_url(video_id),
                    },
                    duration_seconds: duration_of(durations, video_id),
                    transcript: None,
                    ai_summary: None,
                    watched: false,
                },
            )
        },
        None => None,
    }
}

fn video_from_snippet(
    snippet: VideoSnippet,
    video_id: String,
    fallback_channel_id: &str,
    durations: &Vec<VideoDuration>,
) -> (r: Option<Video>)
    ensures
        match r {
            Some(video) => Some(video@),
            None => None,
        } == video_of_snippet(snippet, video_id@, fallback_channel_id@, durations@),
{
    let published = match snippet.published_at {
        Some(published) => published,
        None => {
            return None;
        },
    };
    let title = match snippet.title {
        Some(title) => title,
        None => "Untitled".to_owned(),
    };
    let channel_id = match snippet.channel_id {
        Some(channel_id) => channel_id,
        None => fallback_channel_id.to_owned(),
    };
    let channel_name = match snippet.channel_title {
        Some(name) => name,
        None => "Unknown channel".to_owned(),
    };
    let preferred = match &snippet.thumbnails {
        Some(thumbnails) => thumbnails.preferred_url(),
        None => None,
    };
    let thumbnail_url = match preferred {
        Some(url) => url,
        None => urls::thumbnail_url(video_id.as_str()),
    };
    let duration_seconds = duration_for(durations, video_id.as_str());
    Some(
        Video::new(
            NewVideo {
                video_id,
                channel_id,
                channel_name,
                title,
                published,
                thumbnail_url,
                duration_seconds,
            },
        ),
    )
}

/// The identifier of the video that a playlist item names.
pub open spec fn playlist_item_id(item: PlaylistItem) -> Option<Seq<char>> {
    match item.snippet {
        Some(snippet) => match snippet.resource_id {
            Some(resource) => opt_text(resource.video_id),
            None => None,
        },
        None => None,
    }
}

/// The identifier of the video that a search result names.
pub open spec fn search_item_id(item: SearchItem) -> Option<Seq<char>> {
    match item.id {
        Some(resource) => opt_text(resource.video_id),
        None => None,
    }
}

/// The video that an item describes, where it names one.
pub open spec fn item_video(
    item: SearchItem,
    fallback_channel_id: Seq<char>,
    durations: Seq<VideoDuration>,
) -> Option<VideoView> {
    match (search_item_id(item), item.snippet) {
        (Some(id), Some(snippet)) => video_of_snippet(snippet, id, fallback_channel_id, durations),
        _ => None,
    }
}

/// A playlist item as the search result that says the same.
pub open spec fn as_search_item(item: PlaylistItem) -> SearchItem {
    match item.snippet {
        Some(snippet) => SearchItem { id: snippet.resource_id, snippet: Some(snippet.video) },
        None => SearchItem { id: None, snippet: None },
    }
}

/// The video that a playlist item describes.
pub open spec fn playlist_item_video(
    item: PlaylistItem,
    channel_id: Seq<char>,
    durations: Seq<VideoDuration>,
) -> Option<VideoView> {
    item_video(as_search_item(item), channel_id, durations)
}

/// The video that a search result describes.
pub open spec fn search_item_video(item: SearchItem, durations: Seq<VideoDuration>) -> Option<
    VideoView,
> {
    item_video(item, Seq::empty(), durations)
}

/// Those of the values that are there, in order.
pub open spec fn present<T>(items: Seq<Option<T>>) -> Seq<T>
    decreases items.len(),
{
    if items.len() == 0 {
        Seq::empty()
    } else {
        match items.last() {
            Some(item) => present(items.drop_last()).push(item),
            None => present(items.drop_last()),
        }
    }
}

/// The videos that the items of a playlist describe, in their order.
pub open spec fn playlist_videos(
    items: Seq<PlaylistItem>,
    channel_id: Seq<char>,
    durations: Seq<VideoDuration>,
) -> Seq<VideoView> {
    present(
        items.map_values(|item: PlaylistItem| playlist_item_video(item, channel_id, durations)),
    )
}

/// The videos that search results describe, in their order.
pub open spec fn search_videos(items: Seq<SearchItem>, durations: Seq<VideoDuration>) -> Seq<
    VideoView,
> {
    present(items.map_values(|item: SearchItem| search_item_video(item, durations)))
}

/// The identifiers of the videos that the items of a playlist name, in their order.
pub open spec fn playlist_video_ids(items: Seq<PlaylistItem>) -> Seq<Seq<char>> {
    present(items.map_values(|item: PlaylistItem| playlist_item_id(item)))
}

/// The identifiers of the videos that search results name, in their order.
pub open spec fn search_video_ids(items: Seq<SearchItem>) -> Seq<Seq<char>> {
    present(items.map_values(|item: SearchItem| search_item_id(item)))
}

/// The durations that items tell, in their order.
pub open spec fn told_durations(items: Seq<YoutubeVideoItem>) -> Seq<(Seq<char>, u32)> {
    present(items.map_values(|item: YoutubeVideoItem| item_duration(item)))
}

proof fn lemma_present_step<T>(items: Seq<Option<T>>, n: int)
    requires
        0 <= n < items.len(),
    ensures
        present(items.take(n + 1)) == match items[n] {
            Some(item) => present(items.take(n)).push(item),
            None => present(items.take(n)),
        },
{
    assert(items.take(n + 1).drop_last() =~= items.take(n));
}

/// The videos that items describe, in their order.
fn videos_from_items(
    items: Vec<SearchItem>,
    fallback_channel_id: &str,
    durations: &Vec<VideoDuration>,
) -> (videos: Vec<Video>)
    ensures
        video_views(videos@) == present(
            items@.map_values(
                |item: SearchItem| item_video(item, fallback_channel_id@, durations@),
            ),
        ),
{
    let ghost all = items@.map_values(
        |item: SearchItem| item_video(item, fallback_channel_id@, durations@),
    );
    let ghost source = items@;
    let mut items = items;
    let mut videos: Vec<Video> = Vec::new();
    let ghost mut done: int = 0;
    assert(video_views(videos@) =~= present(all.take(0)));
    while items.len() > 0
        invariant
            0 <= done <= source.len(),
            all.len() == source.len(),
            items@ == source.skip(done),
            all == source.map_values(
                |item: SearchItem| item_video(item, fallback_channel_id@, durations@),
            ),
            video_views(videos@) == present(all.take(done)),
        decreases items.len(),
    {
        let ghost before = video_views(videos@);
        let item = items.remove(0);
        proof {
            assert(item == source[done]);
            assert(items@ =~= source.skip(done + 1));
            lemma_present_step(all, done);
        }
        if let Some(resource) = item.id {
            if let (Some(video_id), Some(snippet)) = (resource.video_id, item.snippet) {
                if let Some(video) = video_from_snippet(
                    snippet,
                    video_id,
                    fallback_channel_id,
                    durations,
                ) {
                    videos.push(video);
                    assert(video_views(videos@) =~= before.push(video@));
                }
            }
        }
        proof {
            done = done + 1;
        }
    }
    assert(all.take(done) =~= all);
    videos
}

/// The videos of a playlist, in its order; items that name no video or no time are left out.
pub fn videos_from_playlist_items(
    items: Vec<PlaylistItem>,
    fallback_channel_id: &str,
    durations: &Vec<VideoDuration>,
) -> (videos: Vec<Video>)
    ensures
        video_views(videos@) == playlist_videos(items@, fallback_channel_id@, durations@),
{
    let ghost source = items@;
    let mut items = items;
    let mut found: Vec<SearchItem> = Vec::new();
    while items.len() > 0
        invariant
            found.len() <= source.len(),
            items@ == source.skip(found.len() as int),
            found@ == source.take(found.len() as int).map_values(
                |item: PlaylistItem| as_search_item(item),
            ),
        decreases items.len(),
    {
        let item = items.remove(0);
        found.push(
            match item.snippet {
                Some(snippet) => SearchItem {
                    id: snippet.resource_id,
                    snippet: Some(snippet.video),
                },
                None => SearchItem { id: None, snippet: None },
            },
        );
        assert(items@ =~= source.skip(found.len() as int));
        assert(found@ =~= source.take(found.len() as int).map_values(
            |item: PlaylistItem| as_search_item(item),
        ));
    }
    assert(found@.map_values(
        |item: SearchItem| item_video(item, fallback_channel_id@, durations@),
    ) =~= source.map_values(
        |item: PlaylistItem| playlist_item_video(item, fallback_channel_id@, durations@),
    ));
    videos_from_items(found, fallback_channel_id, durations)
}

/// The videos that a search found, in its order; results that name no video or no time are
/// left out.
pub fn videos_from_search_items(items: Vec<SearchItem>, durations: &Vec<VideoDuration>) -> (videos:
    Vec<Video>)
    ensures
        video_views(videos@) == search_videos(items@, durations@),
{
    proof {
        reveal_strlit("");
        assert(""@ =~= Seq::<char>::empty());
        assert(items@.map_values(|item: SearchItem| item_video(item, ""@, durations@))
            =~= items@.map_values(|item: SearchItem| search_item_video(item, durations@)));
    }
    videos_from_items(items, "", durations)
}

/// The identifiers of the videos of a playlist.
pub fn video_ids_from_playlist_items(items: &Vec<PlaylistItem>) -> (ids: Vec<String>)
    ensures
        texts(ids@) == playlist_video_ids(items@),
{
    let ghost all = items@.map_values(|item: PlaylistItem| playlist_item_id(item));
    let mut ids: Vec<String> = Vec::new();
    let mut i: usize = 0;
    assert(texts(ids@) =~= present(all.take(0)));
    while i < items.len()
        invariant
            i <= items.len(),
            all == items@.map_values(|item: PlaylistItem| playlist_item_id(item)),
            texts(ids@) == present(all.take(i as int)),
        decreases items.len() - i,
    {
        let ghost before = texts(ids@);
        proof {
            lemma_present_step(all, i as int);
        }
        if let Some(snippet) = &items[i].snippet {
            if let Some(resource) = &snippet.resource_id {
                if let Some(video_id) = &resource.video_id {
                    ids.push(video_id.clone());
                    assert(texts(ids@) =~= before.push(video_id@));
                }
            }
        }
        i += 1;
    }
    assert(all.take(all.len() as int) =~= all);
    ids
}

/// The identifiers of the videos that a search found.
pub fn video_ids_from_search_items(items: &Vec<SearchItem>) -> (ids: Vec<String>)
    ensures
        texts(ids@) == search_video_ids(items@),
{
    let ghost all = items@.map_values(|item: SearchItem| search_item_id(item));
    let mut ids: Vec<String> = Vec::new();
    let mut i: usize = 0;
    assert(texts(ids@) =~= present(all.take(0)));
    while i < items.len()
        invariant
            i <= items.len(),
            all == items@.map_values(|item: SearchItem| search_item_id(item)),
            texts(ids@) == present(all.take(i as int)),
        decreases items.len() - i,
    {
        let ghost before = texts(ids@);
        proof {
            lemma_present_step(all, i as int);
        }
        if let Some(resource) = &items[i].id {
            if let Some(video_id) = &resource.video_id {
                ids.push(video_id.clone());
                assert(texts(ids@) =~= before.push(video_id@));
            }
        }
        i += 1;
    }
    assert(all.take(all.len() as int) =~= all);
    ids
}

/// What the channel service says of a channel: its uploads playlist, where it has one.
#[derive(Debug)]
pub struct ChannelItem {
    pub uploads: Option<String>,
}

/// The first uploads playlist among the channels.
pub open spec fn first_uploads(items: Seq<ChannelItem>) -> Option<Seq<char>>
    decreases items.len(),
{
    if items.len() == 0 {
        None
    } else if items[0].uploads is Some {
        opt_text(items[0].uploads)
    } else {
        first_uploads(items.drop_first())
    }
}

/// The uploads playlist that a lookup resolves to.
pub fn resolved_uploads_playlist(items: &Vec<ChannelItem>) -> (r: Option<String>)
    ensures
        opt_text(r) == first_uploads(items@),
{
    let mut i: usize = 0;
    assert(items@.skip(0) =~= items@);
    while i < items.len()
        invariant
            i <= items.len(),
            first_uploads(items@) == first_uploads(items@.skip(i as int)),
        decreases items.len() - i,
    {
        assert(items@.skip(i as int)[0] == items@[i as int]);
        assert(items@.skip(i as int).drop_first() =~= items@.skip(i + 1));
        if let Some(uploads) = &items[i].uploads {
            return Some(uploads.clone());
        }
        i += 1;
    }
    None
}

/// What the video service says of a video: its duration, in the notation of ISO 8601.
#[derive(Debug)]
pub struct YoutubeVideoItem {
    pub id: Option<String>,
    pub duration: Option<String>,
}

/// The length that `iso8601::duration` reads from a text: whole seconds, and the
/// milliseconds past them.
pub uninterp spec fn iso8601_length(text: Seq<char>) -> Option<(u64, u32)>;

/// Calls `iso8601::duration` and converts what it read to a `std::time::Duration` by that
/// crate's conversion. The result is a function of the text.
#[verifier::external_body]
fn iso8601_duration(text: &str) -> (r: Option<(u64, u32)>)
    ensures
        r == iso8601_length(text@),
{
    let length = std::time::Duration::from(iso8601::duration(text).ok()?);
    Some((length.as_secs(), length.subsec_millis()))
}

/// A length rounded to whole seconds, half a second upwards, where that fits.
pub open spec fn rounded_seconds(length: (u64, u32)) -> Option<u32> {
    let seconds = length.0 + if length.1 >= 500 {
        1int
    } else {
        0int
    };
    if seconds <= u32::MAX {
        Some(seconds as u32)
    } else {
        None
    }
}

/// Rounds a length to whole seconds.
pub fn round_to_seconds(seconds: u64, millis: u32) -> (r: Option<u32>)
    ensures
        r == rounded_seconds((seconds, millis)),
{
    let extra: u64 = if millis >= 500 {
        1
    } else {
        0
    };
    let rounded: u64 = seconds.saturating_add(extra);
    if rounded <= u32::MAX as u64 {
        Some(rounded as u32)
    } else {
        None
    }
}

/// The number of seconds that a duration in the notation of ISO 8601 lasts.
pub open spec fn iso8601_seconds(text: Seq<char>) -> Option<u32> {
    match iso8601_length(text) {
        Some(length) => rounded_seconds(length),
        None => None,
    }
}

/// The number of seconds that a duration in the notation of ISO 8601 lasts.
pub fn parse_iso8601_duration_seconds(input: &str) -> (r: Option<u32>)
    ensures
        r == iso8601_seconds(input@),
{
    match iso8601_duration(input) {
        Some((seconds, millis)) => round_to_seconds(seconds, millis),
        None => None,
    }
}

/// The duration that an item tells.
pub open spec fn item_duration(item: YoutubeVideoItem) -> Option<(Seq<char>, u32)> {
    match (item.id, item.duration) {
        (Some(id), Some(duration)) => match iso8601_seconds(duration@) {
            Some(seconds) => Some((id@, seconds)),
            None => None,
        },
        _ => None,
    }
}

pub open spec fn duration_views(durations: Seq<VideoDuration>) -> Seq<(Seq<char>, u32)> {
    durations.map_values(|entry: VideoDuration| (entry.video_id@, entry.seconds))
}

/// The durations of videos; items without an identifier or with a duration that cannot be
/// read are left out.
pub fn video_durations(items: &Vec<YoutubeVideoItem>) -> (durations: Vec<VideoDuration>)
    ensures
        duration_views(durations@) == told_durations(items@),
{
    let ghost all = items@.map_values(|item: YoutubeVideoItem| item_duration(item));
    let mut durations: Vec<VideoDuration> = Vec::new();
    let mut i: usize = 0;
    assert(duration_views(durations@) =~= present(all.take(0)));
    while i < items.len()
        invariant
            i <= items.len(),
            all == items@.map_values(|item: YoutubeVideoItem| item_duration(item)),
            duration_views(durations@) == present(all.take(i as int)),
        decreases items.len() - i,
    {
        let ghost before = duration_views(durations@);
        proof {
            lemma_present_step(all, i as int);
        }
        if let (Some(id), Some(duration)) = (&items[i].id, &items[i].duration) {
            if let Some(seconds) = parse_iso8601_duration_seconds(duration.as_str()) {
                durations.push(VideoDuration { video_id: id.clone(), seconds });
                assert(duration_views(durations@) =~= before.push((id@, seconds)));
            }
        }
        i += 1;
    }
    assert(all.take(all.len() as int) =~= all);
    durations
}

/// Whether a trimmed line of the file of channels names a channel.
pub open spec fn names_channel(line: Seq<char>) -> bool {
    line.len() > 0 && line[0] != '#'
}

/// The channel that a line names.
pub open spec fn channel_of_line(line: Seq<char>) -> Option<Seq<char>> {
    if names_channel(trimmed(line)) {
        Some(trimmed(line))
    } else {
        None
    }
}

/// The channels that a file names: its lines, trimmed, without blank ones and comments.
pub open spec fn channels_in(content: Seq<char>) -> Seq<Seq<char>> {
    present(lines_of(content).map_values(|line: Seq<char>| channel_of_line(line)))
}

/// The channels that the content of a file names.
pub fn load_channel_ids(content: &str) -> (ids: Vec<String>)
    ensures
        texts(ids@) == channels_in(content@),
{
    let all_lines = lines(content);
    let ghost all = lines_of(content@).map_values(|line: Seq<char>| channel_of_line(line));
    let mut ids: Vec<String> = Vec::new();
    let mut i: usize = 0;
    assert(texts(ids@) =~= present(all.take(0)));
    while i < all_lines.len()
        invariant
            i <= all_lines.len(),
            texts(all_lines@) == lines_of(content@),
            all == lines_of(content@).map_values(|line: Seq<char>| channel_of_line(line)),
            texts(ids@) == present(all.take(i as int)),
        decreases all_lines.len() - i,
    {
        let ghost before = texts(ids@);
        let line = trim(all_lines[i].as_str());
        proof {
            lemma_present_step(all, i as int);
            assert(texts(all_lines@)[i as int] == all_lines@[i as int]@);
        }
        if !line.is_empty() && line.get_char(0) != '#' {
            ids.push(line.to_owned());
            assert(texts(ids@) =~= before.push(line@));
        }
        i += 1;
    }
    assert(all.take(all.len() as int) =~= all);
    ids
}

/// What is there is kept, in order, and nothing else.
pub proof fn what_is_there_is_kept<T>(a: Seq<Option<T>>, b: Seq<Option<T>>, item: T)
    ensures
        present(a + b) == present(a) + present(b),
        present(seq![Some(item)]) == seq![item],
        present(seq![None::<T>]) == Seq::<T>::empty(),
        present(Seq::<Option<T>>::empty()) == Seq::<T>::empty(),
    decreases b.len(),
{
    let none = Seq::<Option<T>>::empty();
    assert(seq![Some(item)].drop_last() =~= none);
    assert(seq![None::<T>].drop_last() =~= none);
    assert(present(none) =~= Seq::<T>::empty());
    assert(present(seq![Some(item)]) =~= seq![item]);
    if b.len() == 0 {
        assert(a + b =~= a);
        assert(present(a) + present(b) =~= present(a));
    } else {
        what_is_there_is_kept(a, b.drop_last(), item);
        assert((a + b).drop_last() =~= a + b.drop_last());
        assert((a + b).last() == b.last());
        assert(present(a + b) =~= present(a) + present(b));
    }
}

pub proof fn lemma_present_origin<T>(items: Seq<Option<T>>, j: int) -> (i: int)
    requires
        0 <= j < present(items).len(),
    ensures
        0 <= i < items.len(),
        items[i] == Some(present(items)[j]),
    decreases items.len(),
{
    let front = present(items.drop_last());
    if j < front.len() {
        let i = lemma_present_origin(items.drop_last(), j);
        assert(items.drop_last()[i] == items[i]);
        i
    } else {
        items.len() - 1
    }
}

proof fn lemma_duration_of(durations: Seq<VideoDuration>, video_id: Seq<char>)
    ensures
        match duration_of(durations, video_id) {
            Some(seconds) => exists|k: int|
                0 <= k < durations.len() && (#[trigger] durations[k]).video_id@ == video_id
                    && durations[k].seconds == seconds && forall|l: int|
                    k < l < durations.len() ==> (#[trigger] durations[l]).video_id@ != video_id,
            None => forall|k: int|
                0 <= k < durations.len() ==> (#[trigger] durations[k]).video_id@ != video_id,
        },
    decreases durations.len(),
{
    if durations.len() > 0 {
        let last = durations.len() - 1;
        if durations[last].video_id@ == video_id {
            assert(durations.last() == durations[last]);
        } else {
            let front = durations.drop_last();
            lemma_duration_of(front, video_id);
            match duration_of(front, video_id) {
                Some(seconds) => {
                    let k = choose|k: int|
                        0 <= k < front.len() && (#[trigger] front[k]).video_id@ == video_id
                            && front[k].seconds == seconds && forall|l: int|
                            k < l < front.len() ==> (#[trigger] front[l]).video_id@ != video_id;
                    assert(durations[k] == front[k]);
                    assert forall|l: int| k < l < durations.len() implies (
                    #[trigger] durations[l]).video_id@ != video_id by {
                        if l < last {
                            assert(durations[l] == front[l]);
                        }
                    }
                },
                None => {
                    assert forall|k: int| 0 <= k < durations.len() implies (
                    #[trigger] durations[k]).video_id@ != video_id by {
                        if k < last {
                            assert(durations[k] == front[k]);
                        }
                    }
                },
            }
        }
    }
}

proof fn lemma_item_durations(
    items: Seq<SearchItem>,
    channel_id: Seq<char>,
    durations: Seq<VideoDuration>,
    videos: Seq<VideoView>,
    j: int,
    k: int,
)
    requires
        videos == present(
            items.map_values(|item: SearchItem| item_video(item, channel_id, durations)),
        ),
        0 <= j < videos.len(),
    ensures
        videos[j].duration_seconds matches Some(seconds) ==> exists|l: int|
            0 <= l < durations.len() && (#[trigger] durations[l]).video_id@ == videos[j].video_id
                && durations[l].seconds == seconds,
        videos[j].duration_seconds is None ==> forall|l: int|
            0 <= l < durations.len() ==> (#[trigger] durations[l]).video_id@ != videos[j].video_id,
        0 <= k < durations.len() && durations[k].video_id@ == videos[j].video_id && (forall|l: int|
            k < l < durations.len() ==> (#[trigger] durations[l]).video_id@ != videos[j].video_id)
            ==> videos[j].duration_seconds == Some(durations[k].seconds),
{
    let told = items.map_values(|item: SearchItem| item_video(item, channel_id, durations));
    let i = lemma_present_origin(told, j);
    assert(told[i] == item_video(items[i], channel_id, durations));
    lemma_duration_of(durations, videos[j].video_id);
}

/// A video of a playlist has the duration that the list has for its own identifier, wherever
/// that stands, the last one where there are several, and none where the list has none.
pub proof fn playlist_videos_have_their_own_durations(
    items: Seq<PlaylistItem>,
    channel_id: Seq<char>,
    durations: Seq<VideoDuration>,
    j: int,
    k: int,
)
    requires
        0 <= j < playlist_videos(items, channel_id, durations).len(),
    ensures
        ({
            let video = playlist_videos(items, channel_id, durations)[j];
            &&& video.duration_seconds matches Some(seconds) ==> exists|l: int|
                0 <= l < durations.len() && (#[trigger] durations[l]).video_id@ == video.video_id
                    && durations[l].seconds == seconds
            &&& video.duration_seconds is None ==> forall|l: int|
                0 <= l < durations.len() ==> (#[trigger] durations[l]).video_id@ != video.video_id
            &&& 0 <= k < durations.len() && durations[k].video_id@ == video.video_id && (forall|
                l: int,
            |
                k < l < durations.len() ==> (#[trigger] durations[l]).video_id@ != video.video_id)
                ==> video.duration_seconds == Some(durations[k].seconds)
        }),
{
    let found = items.map_values(|item: PlaylistItem| as_search_item(item));
    let videos = playlist_videos(items, channel_id, durations);
    assert(found.map_values(|item: SearchItem| item_video(item, channel_id, durations))
        =~= items.map_values(
        |item: PlaylistItem| playlist_item_video(item, channel_id, durations),
    ));
    lemma_item_durations(found, channel_id, durations, videos, j, k);
}

/// A video that a search found has the duration that the list has for its own identifier.
pub proof fn found_videos_have_their_own_durations(
    items: Seq<SearchItem>,
    durations: Seq<VideoDuration>,
    j: int,
    k: int,
)
    requires
        0 <= j < search_videos(items, durations).len(),
    ensures
        ({
            let video = search_videos(items, durations)[j];
            &&& video.duration_seconds matches Some(seconds) ==> exists|l: int|
                0 <= l < durations.len() && (#[trigger] durations[l]).video_id@ == video.video_id
                    && durations[l].seconds == seconds
            &&& video.duration_seconds is None ==> forall|l: int|
                0 <= l < durations.len() ==> (#[trigger] durations[l]).video_id@ != video.video_id
            &&& 0 <= k < durations.len() && durations[k].video_id@ == video.video_id && (forall|
                l: int,
            |
                k < l < durations.len() ==> (#[trigger] durations[l]).video_id@ != video.video_id)
                ==> video.duration_seconds == Some(durations[k].seconds)
        }),
{
    let none = Seq::<char>::empty();
    assert(items.map_values(|item: SearchItem| item_video(item, none, durations))
        =~= items.map_values(|item: SearchItem| search_item_video(item, durations)));
    lemma_item_durations(items, none, durations, search_videos(items, durations), j, k);
}

/// The videos of a playlist come item by item, in the order of the items.
pub proof fn playlist_videos_come_item_by_item(
    a: Seq<PlaylistItem>,
    b: Seq<PlaylistItem>,
    channel_id: Seq<char>,
    durations: Seq<VideoDuration>,
)
    ensures
        playlist_videos(a + b, channel_id, durations) == playlist_videos(a, channel_id, durations)
            + playlist_videos(b, channel_id, durations),
        playlist_video_ids(a + b) == playlist_video_ids(a) + playlist_video_ids(b),
        playlist_videos(Seq::empty(), channel_id, durations) == Seq::<VideoView>::empty(),
{
    let f = |item: PlaylistItem| playlist_item_video(item, channel_id, durations);
    let g = |item: PlaylistItem| playlist_item_id(item);
    let any = VideoView {
        video_id: Seq::empty(),
        channel_id: Seq::empty(),
        channel_name: Seq::empty(),
        title: Seq::empty(),
        published: Timestamp { secs: 0, nanos: 0 },
        thumbnail_url: Seq::empty(),
        duration_seconds: None,
        transcript: None,
        ai_summary: None,
        watched: false,
    };
    what_is_there_is_kept(a.map_values(f), b.map_values(f), any);
    what_is_there_is_kept(a.map_values(g), b.map_values(g), Seq::empty());
    assert((a + b).map_values(f) =~= a.map_values(f) + b.map_values(f));
    assert((a + b).map_values(g) =~= a.map_values(g) + b.map_values(g));
    assert(Seq::<PlaylistItem>::empty().map_values(f) =~= Seq::empty());
}

/// The videos that a search found come result by result, in the order of the results.
pub proof fn found_videos_come_result_by_result(
    a: Seq<SearchItem>,
    b: Seq<SearchItem>,
    durations: Seq<VideoDuration>,
)
    ensures
        search_videos(a + b, durations) == search_videos(a, durations) + search_videos(
            b,
            durations,
        ),
        search_video_ids(a + b) == search_video_ids(a) + search_video_ids(b),
        search_videos(Seq::empty(), durations) == Seq::<VideoView>::empty(),
{
    let f = |item: SearchItem| search_item_video(item, durations);
    let g = |item: SearchItem| search_item_id(item);
    let (x, y) = (a.map_values(f), b.map_values(f));
    if x.len() > 0 && x[0] is Some {
        what_is_there_is_kept(x, y, x[0].unwrap());
    } else {
        what_is_there_is_kept(x, y, arbitrary());
    }
    what_is_there_is_kept(a.map_values(g), b.map_values(g), Seq::empty());
    assert((a + b).map_values(f) =~= x + y);
    assert((a + b).map_values(g) =~= a.map_values(g) + b.map_values(g));
    assert(Seq::<SearchItem>::empty().map_values(f) =~= Seq::empty());
}

/// An item of a playlist that names a video and says when it was published makes that video,
/// with what the item says of it; any other makes none.
pub proof fn an_item_makes_the_video_it_names(
    item: PlaylistItem,
    channel_id: Seq<char>,
    durations: Seq<VideoDuration>,
)
    ensures
        ({
            let videos = playlist_videos(seq![item], channel_id, durations);
            let ids = playlist_video_ids(seq![item]);
            match item.snippet {
                Some(
                    PlaylistItemSnippet { video, resource_id: Some(ResourceId { video_id: Some(id) }) },
                ) => ids == seq![id@] && (match video.published_at {
                    Some(at) => {
                &&& videos.len() == 1
                &&& videos[0].video_id == id@
                &&& videos[0].published == at
                &&& video.title matches Some(title) ==> xml_unescaped(title@) is None ==> videos[0].title
                    == title@
                &&& video.title matches Some(title) ==> xml_unescaped(title@) matches Some(text)
                    ==> videos[0].title == text
                &&& video.title is None ==> videos[0].title == (match xml_unescaped("Untitled"@) {
                    Some(text) => text,
                    None => "Untitled"@,
                })
                &&& video.channel_id matches Some(channel) ==> videos[0].channel_id == channel@
                &&& video.channel_id is None ==> videos[0].channel_id == channel_id
                &&& video.channel_title matches Some(name) ==> videos[0].channel_name == name@
                &&& video.channel_title is None ==> videos[0].channel_name == "Unknown channel"@
                &&& video.thumbnails is None ==> videos[0].thumbnail_url
                    == "https://i.ytimg.com/vi/"@ + id@ + "/hqdefault.jpg"@
                &&& videos[0].transcript is None && videos[0].ai_summary is None
                    && !videos[0].watched
                    },
                    None => videos.len() == 0,
                }),
                _ => videos.len() == 0 && ids.len() == 0,
            }
        }),
{
    let f = |item: PlaylistItem| playlist_item_video(item, channel_id, durations);
    let g = |item: PlaylistItem| playlist_item_id(item);
    assert(seq![item].map_values(f) =~= seq![f(item)]);
    assert(seq![item].map_values(g) =~= seq![g(item)]);
    let none = Seq::<Option<VideoView>>::empty();
    what_is_there_is_kept(none, none, f(item).unwrap());
    what_is_there_is_kept(Seq::empty(), Seq::empty(), g(item).unwrap());
}

/// A search result that names a video and says when it was published makes that video, with
/// what the result says of it; any other makes none.
pub proof fn a_result_makes_the_video_it_names(item: SearchItem, durations: Seq<VideoDuration>)
    ensures
        ({
            let videos = search_videos(seq![item], durations);
            let ids = search_video_ids(seq![item]);
            match item.id {
                Some(ResourceId { video_id: Some(id) }) => ids == seq![id@] && (match item.snippet {
                    Some(video) => match video.published_at {
                        Some(at) => {
                &&& videos.len() == 1
                &&& videos[0].video_id == id@
                &&& videos[0].published == at
                &&& video.title matches Some(title) ==> xml_unescaped(title@) is None ==> videos[0].title
                    == title@
                &&& video.title matches Some(title) ==> xml_unescaped(title@) matches Some(text)
                    ==> videos[0].title == text
                &&& video.title is None ==> videos[0].title == (match xml_unescaped("Untitled"@) {
                    Some(text) => text,
                    None => "Untitled"@,
                })
                &&& video.channel_id matches Some(channel) ==> videos[0].channel_id == channel@
                &&& video.channel_id is None ==> videos[0].channel_id == Seq::<char>::empty()
                &&& video.channel_title matches Some(name) ==> videos[0].channel_name == name@
                &&& video.channel_title is None ==> videos[0].channel_name == "Unknown channel"@
                &&& video.thumbnails is None ==> videos[0].thumbnail_url
                    == "https://i.ytimg.com/vi/"@ + id@ + "/hqdefault.jpg"@
                &&& videos[0].transcript is None && videos[0].ai_summary is None
                    && !videos[0].watched
                        },
                        None => videos.len() == 0,
                    },
                    None => videos.len() == 0,
                }),
                _ => videos.len() == 0 && ids.len() == 0,
            }
        }),
{
    let f = |item: SearchItem| search_item_video(item, durations);
    let g = |item: SearchItem| search_item_id(item);
    assert(seq![item].map_values(f) =~= seq![f(item)]);
    assert(seq![item].map_values(g) =~= seq![g(item)]);
    let none = Seq::<Option<VideoView>>::empty();
    what_is_there_is_kept(none, none, f(item).unwrap());
    what_is_there_is_kept(Seq::empty(), Seq::empty(), g(item).unwrap());
}

/// Of the thumbnails that a video has, the card shows the medium one; where that is missing the
/// high, the standard, the largest or the default one, whichever comes first; and the usual one
/// where there is none at all.
pub proof fn cards_show_the_medium_thumbnail(
    snippet: VideoSnippet,
    thumbnails: PlaylistThumbnails,
    video_id: Seq<char>,
    channel_id: Seq<char>,
    durations: Seq<VideoDuration>,
)
    requires
        snippet.thumbnails == Some(thumbnails),
        snippet.published_at is Some,
    ensures
        video_of_snippet(snippet, video_id, channel_id, durations) matches Some(video)
            && video.thumbnail_url == match (
            thumbnails.medium,
            thumbnails.high,
            thumbnails.standard,
            thumbnails.maxres,
            thumbnails.default_thumbnail,
        ) {
            (Some(medium), _, _, _, _) => medium.url@,
            (None, Some(high), _, _, _) => high.url@,
            (None, None, Some(standard), _, _) => standard.url@,
            (None, None, None, Some(largest), _) => largest.url@,
            (None, None, None, None, Some(smallest)) => smallest.url@,
            _ => "https://i.ytimg.com/vi/"@ + video_id + "/hqdefault.jpg"@,
        },
{
}

/// Each item that has an identifier and a duration that can be read tells that duration of that
/// video, in the order of the items; no other does.
pub proof fn durations_come_item_by_item(
    a: Seq<YoutubeVideoItem>,
    b: Seq<YoutubeVideoItem>,
    item: YoutubeVideoItem,
)
    ensures
        told_durations(a + b) == told_durations(a) + told_durations(b),
        match (item.id, item.duration) {
            (Some(id), Some(text)) => match iso8601_length(text@) {
                Some((seconds, millis)) => {
                    &&& millis < 500 && seconds <= u32::MAX ==> told_durations(seq![item]) == seq![
                        (id@, seconds as u32),
                    ]
                    &&& millis >= 500 && seconds < u32::MAX ==> told_durations(seq![item]) == seq![
                        (id@, (seconds + 1) as u32),
                    ]
                    &&& seconds > u32::MAX ==> told_durations(seq![item]).len() == 0
                },
                None => told_durations(seq![item]).len() == 0,
            },
            _ => told_durations(seq![item]).len() == 0,
        },
{
    let f = |item: YoutubeVideoItem| item_duration(item);
    what_is_there_is_kept(a.map_values(f), b.map_values(f), (Seq::empty(), 0u32));
    assert((a + b).map_values(f) =~= a.map_values(f) + b.map_values(f));
    assert(seq![item].map_values(f) =~= seq![f(item)]);
    let none = Seq::<Option<(Seq<char>, u32)>>::empty();
    what_is_there_is_kept(none, none, f(item).unwrap());
}

/// The playlist that a lookup resolves to is the first one that a channel has.
pub proof fn the_first_playlist_is_taken(items: Seq<ChannelItem>)
    ensures
        match first_uploads(items) {
            Some(playlist) => exists|i: int|
                0 <= i < items.len() && opt_text((#[trigger] items[i]).uploads) == Some(playlist)
                    && forall|j: int| 0 <= j < i ==> (#[trigger] items[j]).uploads is None,
            None => forall|i: int| 0 <= i < items.len() ==> (#[trigger] items[i]).uploads is None,
        },
    decreases items.len(),
{
    if items.len() > 0 && items[0].uploads is None {
        let rest = items.drop_first();
        the_first_playlist_is_taken(rest);
        match first_uploads(rest) {
            Some(playlist) => {
                let i = choose|i: int|
                    0 <= i < rest.len() && opt_text((#[trigger] rest[i]).uploads) == Some(playlist)
                        && forall|j: int| 0 <= j < i ==> (#[trigger] rest[j]).uploads is None;
                assert(items[i + 1] == rest[i]);
                assert forall|j: int| 0 <= j < i + 1 implies (#[trigger] items[j]).uploads is None by {
                    if j > 0 {
                        assert(items[j] == rest[j - 1]);
                    }
                }
            },
            None => {
                assert forall|i: int| 0 <= i < items.len() implies (
                #[trigger] items[i]).uploads is None by {
                    if i > 0 {
                        assert(items[i] == rest[i - 1]);
                    }
                }
            },
        }
    } else if items.len() > 0 {
        assert(opt_text(items[0].uploads) == first_uploads(items));
    }
}

/// Each channel whose identifier begins with `UC` is fetched, from the playlist that begins
/// with `UU` and goes on alike, in the order of the channels; each other one is reported.
pub proof fn channels_are_fetched_or_reported(
    a: Seq<Seq<char>>,
    b: Seq<Seq<char>>,
    channel_id: Seq<char>,
    rest: Seq<char>,
)
    ensures
        channels_to_fetch(a + b) == channels_to_fetch(a) + channels_to_fetch(b),
        invalid_channels(a + b) == invalid_channels(a) + invalid_channels(b),
        channels_to_fetch(seq!["UC"@ + rest]) == seq![
            PendingView {
                channel_id: "UC"@ + rest,
                uploads_playlist_id: "UU"@ + rest,
                attempt: 1,
            },
        ],
        invalid_channels(seq!["UC"@ + rest]).len() == 0,
        !"UC"@.is_prefix_of(channel_id) ==> channels_to_fetch(seq![channel_id]).len() == 0
            && invalid_channels(seq![channel_id]) == seq![
            ProgressView::Error {
                channel_id,
                error: "Invalid channel ID. Expected an ID starting with 'UC'."@,
            },
        ],
    decreases b.len(),
{
    let none = Seq::<Seq<char>>::empty();
    let full = "UC"@ + rest;
    reveal_strlit("UC");
    assert("UC"@ =~= full.subrange(0, "UC"@.len() as int));
    assert(full.skip("UC"@.len() as int) =~= rest);
    assert(seq![full].drop_last() =~= none && seq![channel_id].drop_last() =~= none);
    assert(channels_to_fetch(none) =~= Seq::empty() && invalid_channels(none) =~= Seq::empty());
    if b.len() == 0 {
        assert(a + b =~= a);
        assert(channels_to_fetch(a) + channels_to_fetch(b) =~= channels_to_fetch(a));
        assert(invalid_channels(a) + invalid_channels(b) =~= invalid_channels(a));
    } else {
        channels_are_fetched_or_reported(a, b.drop_last(), channel_id, rest);
        assert((a + b).drop_last() =~= a + b.drop_last());
        assert((a + b).last() == b.last());
        assert(channels_to_fetch(a + b) =~= channels_to_fetch(a) + channels_to_fetch(b));
        assert(invalid_channels(a + b) =~= invalid_channels(a) + invalid_channels(b));
    }
}

/// A fetch that succeeded hands on its videos and their number. One that found no playlist has
/// it looked up. A failure that may pass, a timeout, a lost connection, or the status 408, 429
/// or one from 500 to 599, is tried again while fewer than three attempts were made, after a
/// delay that its kind and the attempt determine; any other ends the channel with what went
/// wrong.
pub proof fn what_follows_a_fetch(
    pending: PendingView,
    videos: Vec<Video>,
    failure: FetchFailure,
)
    ensures
        step_after_fetch(pending, Ok(videos)) == (StepView::Done {
            videos: video_views(videos@),
            progress: ProgressView::ChannelComplete {
                channel: pending.channel_id,
                count: videos@.len() as usize,
            },
        }),
        failure.status == Some(404u16) ==> step_after_fetch(pending, Err(failure)) == (
        StepView::LookUpPlaylist { pending, failure }),
        failure.status != Some(404u16) ==> match step_after_fetch(pending, Err(failure)) {
            StepView::Retry { pending: next, delay_ms, progress } => {
                &&& pending.attempt < 3
                &&& failure.timeout || failure.connect || (failure.status matches Some(code) && (
                code == 408 || code == 429 || 500 <= code <= 599))
                &&& next == (PendingView { attempt: (pending.attempt + 1) as usize, ..pending })
                &&& pending.attempt <= 1 ==> delay_ms == first_delay(failure)
                &&& pending.attempt == 2 ==> delay_ms == 2 * first_delay(failure)
                &&& progress matches ProgressView::RetryScheduled {
                    channel_id,
                    next_attempt,
                    max_attempts,
                    delay_secs,
                    reason,
                } && channel_id == pending.channel_id && next_attempt == pending.attempt + 1
                    && max_attempts == 3 && reason == failure.message@ && delay_secs * 1000
                    >= delay_ms && delay_secs * 1000 < delay_ms + 1000
            },
            StepView::GiveUp { progress } => {
                &&& pending.attempt >= 3 || !(failure.timeout || failure.connect || (
                failure.status matches Some(code) && (code == 408 || code == 429 || 500 <= code
                    <= 599)))
                &&& progress == (ProgressView::Error {
                    channel_id: pending.channel_id,
                    error: failure.message@,
                })
            },
            _ => false,
        },
{
}

/// The first delay in milliseconds: three seconds for a lost connection, a timeout, or the
/// status 408; ten where there were too many requests; five where the service is at fault.
pub open spec fn first_delay(failure: FetchFailure) -> int {
    match (failure.timeout || failure.connect, failure.status) {
        (true, _) => 3000,
        (false, Some(code)) => if code == 408 {
            3000
        } else if code == 429 {
            10000
        } else if code >= 500 && code <= 599 {
            5000
        } else {
            500
        },
        (false, None) => 500,
    }
}

/// A playlist that a lookup found and that is another one is fetched at once while attempts
/// are left; otherwise the failure stands as if nothing had been looked up.
pub proof fn what_follows_a_lookup(
    pending: PendingView,
    failure: FetchFailure,
    playlist: Seq<char>,
    other: FetchFailure,
)
    requires
        other == (FetchFailure { status: Some(404), ..failure }),
    ensures
        playlist != pending.uploads_playlist_id && pending.attempt < 3 ==> (step_after_lookup(
            pending,
            failure,
            Some(playlist),
        ) matches StepView::Retry { pending: next, delay_ms, .. } && delay_ms == 0 && next == (
        PendingView {
            uploads_playlist_id: playlist,
            attempt: (pending.attempt + 1) as usize,
            ..pending
        })),
        playlist != pending.uploads_playlist_id && pending.attempt >= 3 ==> (step_after_lookup(
            pending,
            failure,
            Some(playlist),
        ) matches StepView::GiveUp { progress } && progress matches ProgressView::Error {
            channel_id,
            ..
        } && channel_id == pending.channel_id),
        step_after_lookup(pending, failure, Some(pending.uploads_playlist_id))
            == step_after_lookup(pending, failure, None),
        failure.status != Some(404u16) ==> step_after_lookup(pending, failure, None)
            == step_after_fetch(pending, Err(failure)),
        !other.timeout && !other.connect ==> step_after_lookup(pending, other, None) == (
        StepView::GiveUp {
            progress: ProgressView::Error {
                channel_id: pending.channel_id,
                error: failure.message@,
            },
        }),
{
}

/// The videos of all channels that succeeded go into the feed, channel by channel, and the
/// others only count as failed.
pub proof fn channels_are_gathered_one_by_one(
    a: Seq<ChannelFetchResult>,
    b: Seq<ChannelFetchResult>,
    videos: Vec<Video>,
)
    ensures
        all_videos(a + b) == all_videos(a) + all_videos(b),
        successes(a + b) == successes(a) + successes(b),
        all_videos(seq![ChannelFetchResult::Success { videos }]) == video_views(videos@),
        successes(seq![ChannelFetchResult::Success { videos }]) == 1,
        all_videos(seq![ChannelFetchResult::Failed]) == Seq::<VideoView>::empty(),
        successes(seq![ChannelFetchResult::Failed]) == 0,
    decreases b.len(),
{
    let none = Seq::<ChannelFetchResult>::empty();
    let success = ChannelFetchResult::Success { videos };
    assert(seq![success].drop_last() =~= none);
    assert(seq![ChannelFetchResult::Failed].drop_last() =~= none);
    assert(all_videos(none) =~= Seq::<VideoView>::empty() && successes(none) == 0);
    assert(all_videos(none) + video_views(videos@) =~= video_views(videos@));
    if b.len() == 0 {
        assert(a + b =~= a);
        assert(all_videos(a) + all_videos(b) =~= all_videos(a));
    } else {
        channels_are_gathered_one_by_one(a, b.drop_last(), videos);
        assert((a + b).drop_last() =~= a + b.drop_last());
        assert((a + b).last() == b.last());
        assert(all_videos(a + b) =~= all_videos(a) + all_videos(b));
    }
}

/// The feed holds every video where there are no more than four hundred, and four hundred where
/// there are more.
pub proof fn the_feed_is_full(videos: Seq<VideoView>)
    ensures
        videos.len() <= 400 ==> feed_of(videos).to_multiset() == videos.to_multiset(),
        videos.len() > 400 ==> feed_of(videos).len() == 400,
        exists|rest: Seq<VideoView>|
            #![trigger feed_of(videos) + rest]
            (feed_of(videos) + rest).to_multiset() == videos.to_multiset() && is_newest_first(
                feed_of(videos) + rest,
            ),
{
    let sorted = newest_first(videos);
    newest_first_is_a_stable_sort(videos, Timestamp { secs: 0, nanos: 0 });
    let rest = sorted.skip(feed_of(videos).len() as int);
    assert(feed_of(videos) + rest =~= sorted);
}

/// The channels in a file come line by line: each line that, trimmed, is not empty and does not
/// begin with `#` names the channel that it is, trimmed.
pub proof fn channels_come_line_by_line(a: Seq<char>, b: Seq<char>, line: Seq<char>)
    requires
        !line.contains('\n'),
    ensures
        channels_in(a + seq!['\n'] + b) == channels_in(a + seq!['\n']) + channels_in(b),
        channels_in(line) == if trimmed(line).len() == 0 || trimmed(line)[0] == '#' {
            Seq::empty()
        } else {
            seq![trimmed(line)]
        },
        channels_in(line + seq!['\r', '\n']) == channels_in(line),
        line.len() > 0 && line.last() != '\r' ==> channels_in(line + seq!['\n']) == channels_in(
            line,
        ),
{
    let f = |line: Seq<char>| channel_of_line(line);
    let feed = seq!['\n'];
    lines_part_at_line_feeds(a, b);
    lines_part_at_line_feeds(line, b);
    let (x, y) = (lines_of(a + feed), lines_of(b));
    what_is_there_is_kept(x.map_values(f), y.map_values(f), line);
    assert((x + y).map_values(f) =~= x.map_values(f) + y.map_values(f));
    let none = Seq::<Option<Seq<char>>>::empty();
    what_is_there_is_kept(none, none, trimmed(line));
    assert(seq![line].map_values(f) =~= seq![f(line)]);
    if line.len() == 0 {
        assert(trimmed(line).len() == 0);
        assert(lines_of(line).map_values(f) =~= none);
    }
}

/// What keeps the feed from being fetched is told, and the file where it cannot be read.
pub proof fn failures_before_a_refresh_are_told(path: String, source: String)
    ensures
        feed_error_text(FeedError::MissingApiKey)
            == "GOOGLE_API_KEY is not set. Set it before refreshing feeds."@,
        feed_error_text(FeedError::ReadChannelIds { path, source })
            == "failed to read channel IDs from "@ + path@ + ": "@ + source@,
{
}

} // verus!
