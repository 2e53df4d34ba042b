//! Which cards the tabs show, in which order, and what the cards say.

use crate::cache::storage::{area_path, thumbnail_file_name, CacheArea, Roots, Storage};
use crate::data::{has_summary, ids_of, video_views, Tab, Video, VideoView};
use crate::ids::{position, text_le_antisymmetric, text_le_total, text_le_transitive, IdSet};
use crate::paths::joined_path;
use crate::text::{decimal, digit_char, push_decimal, text_at_most, text_le, texts};
use crate::time::{rough_age, rough_age_text, LONGEST_SPAN};
use crate::ui::state::{AppState, StateView};
use crate::ui::videos::{index_of, lemma_index_of, video_with_id};
use crate::ui::watch_later::DownloadBadge;
use vstd::prelude::*;

verus! {

/// Whether the watch-later tab shows a video before another: the newer one first, videos of
/// one time by their identifiers.
pub open spec fn shown_before(a: VideoView, b: VideoView) -> bool {
    a.published.is_after(b.published) || (a.published == b.published && text_le(
        a.video_id,
        b.video_id,
    ))
}

/// How many videos at the front of `list` are shown before `video`.
pub open spec fn shown_slot(list: Seq<VideoView>, video: VideoView) -> int
    decreases list.len(),
{
    if list.len() == 0 || !shown_before(list[0], video) {
        0
    } else {
        1 + shown_slot(list.drop_first(), video)
    }
}

/// The watch-later videos among `videos`, in the order in which they are shown.
pub open spec fn watch_later_list(videos: Seq<VideoView>, watch_later: Set<Seq<char>>) -> Seq<
    VideoView,
>
    decreases videos.len(),
{
    if videos.len() == 0 {
        Seq::empty()
    } else {
        let list = watch_later_list(videos.drop_last(), watch_later);
        if watch_later.contains(videos.last().video_id) {
            list.insert(shown_slot(list, videos.last()), videos.last())
        } else {
            list
        }
    }
}

/// Whether every video is shown before those behind it.
pub open spec fn in_shown_order(list: Seq<VideoView>) -> bool {
    forall|i: int, j: int|
        0 <= i < j < list.len() ==> shown_before(#[trigger] list[i], #[trigger] list[j])
}

proof fn lemma_shown_total(a: VideoView, b: VideoView)
    ensures
        shown_before(a, b) || shown_before(b, a),
{
    text_le_total(a.video_id, b.video_id);
}

proof fn lemma_shown_transitive(a: VideoView, b: VideoView, c: VideoView)
    requires
        shown_before(a, b),
        shown_before(b, c),
    ensures
        shown_before(a, c),
{
    if a.published == b.published && b.published == c.published {
        text_le_transitive(a.video_id, b.video_id, c.video_id);
    }
}

proof fn lemma_shown_antisymmetric(a: VideoView, b: VideoView)
    requires
        shown_before(a, b),
        shown_before(b, a),
    ensures
        a.video_id == b.video_id,
{
    text_le_antisymmetric(a.video_id, b.video_id);
}

proof fn lemma_shown_slot(list: Seq<VideoView>, video: VideoView)
    ensures
        0 <= shown_slot(list, video) <= list.len(),
        forall|k: int|
            0 <= k < shown_slot(list, video) ==> shown_before(#[trigger] list[k], video),
        shown_slot(list, video) < list.len() ==> !shown_before(
            list[shown_slot(list, video)],
            video,
        ),
    decreases list.len(),
{
    if list.len() > 0 && shown_before(list[0], video) {
        let rest = list.drop_first();
        lemma_shown_slot(rest, video);
        assert forall|k: int| 0 <= k < shown_slot(list, video) implies shown_before(
            #[trigger] list[k],
            video,
        ) by {
            if k > 0 {
                assert(rest[k - 1] == list[k]);
            }
        }
        assert(shown_slot(rest, video) < rest.len() ==> rest[shown_slot(rest, video)]
            == list[shown_slot(list, video)]);
    }
}

proof fn lemma_insert_shown(list: Seq<VideoView>, video: VideoView)
    requires
        in_shown_order(list),
    ensures
        in_shown_order(list.insert(shown_slot(list, video), video)),
        forall|other: VideoView| #[trigger]
            list.insert(shown_slot(list, video), video).contains(other) <==> list.contains(other)
                || other == video,
{
    let s = shown_slot(list, video);
    lemma_shown_slot(list, video);
    let after = list.insert(s, video);
    assert forall|k: int| s <= k < list.len() implies shown_before(video, #[trigger] list[k]) by {
        lemma_shown_total(list[s], video);
        if k > s {
            lemma_shown_transitive(video, list[s], list[k]);
        }
    }
    assert forall|i: int, j: int| 0 <= i < j < after.len() implies shown_before(
        #[trigger] after[i],
        #[trigger] after[j],
    ) by {
        if i < s && j < s {
            assert(shown_before(list[i], list[j]));
        } else if i < s && j > s {
            assert(shown_before(list[i], list[j - 1]));
        } else if i > s {
            assert(shown_before(list[i - 1], list[j - 1]));
        } else if i == s {
            assert(shown_before(video, list[j - 1]));
        }
    }
    assert forall|other: VideoView| #[trigger] after.contains(other) <==> list.contains(other)
        || other == video by {
        if list.contains(other) {
            let k = choose|k: int| 0 <= k < list.len() && list[k] == other;
            assert(after[if k < s { k } else { k + 1 }] == other);
        }
        if other == video {
            assert(after[s] == other);
        }
        if after.contains(other) {
            let k = choose|k: int| 0 <= k < after.len() && after[k] == other;
            if k < s {
                assert(list[k] == other);
            } else if k > s {
                assert(list[k - 1] == other);
            }
        }
    }
}

/// The watch-later tab shows the watch-later videos, the newest first, and videos of one time
/// by their identifiers.
pub proof fn watch_later_videos_are_shown_newest_first(
    videos: Seq<VideoView>,
    watch_later: Set<Seq<char>>,
)
    ensures
        in_shown_order(watch_later_list(videos, watch_later)),
        forall|video: VideoView| #[trigger]
            watch_later_list(videos, watch_later).contains(video) <==> videos.contains(video)
                && watch_later.contains(video.video_id),
    decreases videos.len(),
{
    if videos.len() > 0 {
        let rest = videos.drop_last();
        watch_later_videos_are_shown_newest_first(rest, watch_later);
        let list = watch_later_list(rest, watch_later);
        lemma_insert_shown(list, videos.last());
        assert forall|video: VideoView| videos.contains(video) <==> rest.contains(video) || video
            == videos.last() by {
            if videos.contains(video) {
                let k = choose|k: int| 0 <= k < videos.len() && videos[k] == video;
                if k < rest.len() {
                    assert(rest[k] == video);
                }
            }
            if rest.contains(video) {
                let k = choose|k: int| 0 <= k < rest.len() && rest[k] == video;
                assert(videos[k] == video);
            }
            assert(videos[videos.len() - 1] == videos.last());
        }
    }
}

pub proof fn lemma_list_distinct(videos: Seq<VideoView>, watch_later: Set<Seq<char>>)
    requires
        ids_of(videos).no_duplicates(),
    ensures
        ids_of(watch_later_list(videos, watch_later)).no_duplicates(),
    decreases videos.len(),
{
    if videos.len() > 0 {
        let rest = videos.drop_last();
        let last = videos.last();
        assert forall|i: int, j: int|
            0 <= i < ids_of(rest).len() && 0 <= j < ids_of(rest).len() && i != j implies ids_of(
            rest,
        )[i] != ids_of(rest)[j] by {
            assert(ids_of(videos)[i] != ids_of(videos)[j]);
        }
        lemma_list_distinct(rest, watch_later);
        watch_later_videos_are_shown_newest_first(rest, watch_later);
        let list = watch_later_list(rest, watch_later);
        if watch_later.contains(last.video_id) {
            lemma_shown_slot(list, last);
            let s = shown_slot(list, last);
            assert forall|m: int| 0 <= m < list.len() implies ids_of(list)[m] != last.video_id by {
                assert(list.contains(list[m]));
                let k = choose|k: int| 0 <= k < rest.len() && rest[k] == list[m];
                assert(ids_of(videos)[k] != ids_of(videos)[videos.len() - 1]);
            }
            let after = ids_of(list.insert(s, last));
            assert forall|i: int, j: int|
                0 <= i < after.len() && 0 <= j < after.len() && i != j implies after[i]
                != after[j] by {
                let a = if i < s { i } else { i - 1 };
                let b = if j < s { j } else { j - 1 };
                if i != s && j != s {
                    assert(ids_of(list)[a] != ids_of(list)[b]);
                } else if i == s {
                    assert(ids_of(list)[b] != last.video_id);
                } else {
                    assert(ids_of(list)[a] != last.video_id);
                }
            }
        }
    }
}

pub proof fn lemma_order_unique(a: Seq<VideoView>, b: Seq<VideoView>)
    requires
        in_shown_order(a),
        in_shown_order(b),
        ids_of(a).no_duplicates(),
        ids_of(b).no_duplicates(),
        forall|video: VideoView| a.contains(video) <==> b.contains(video),
    ensures
        a == b,
    decreases a.len(),
{
    if a.len() == 0 {
        if b.len() > 0 {
            assert(b.contains(b[0]));
            assert(a.contains(b[0]));
        }
        assert(a =~= b);
    } else {
        let (p, q) = (a.last(), b.last());
        assert(a.contains(p));
        assert(b.contains(p));
        assert(b.len() > 0);
        assert(b.contains(q));
        assert(a.contains(q));
        let i = choose|i: int| 0 <= i < b.len() && b[i] == p;
        let j = choose|j: int| 0 <= j < a.len() && a[j] == q;
        if j < a.len() - 1 && i < b.len() - 1 {
            assert(shown_before(a[j], a[a.len() - 1]));
            assert(shown_before(b[i], b[b.len() - 1]));
            lemma_shown_antisymmetric(p, q);
            assert(ids_of(a)[j] != ids_of(a)[a.len() - 1]);
        }
        assert(p == q);
        let (x, y) = (a.drop_last(), b.drop_last());
        assert forall|m: int, n: int|
            0 <= m < ids_of(x).len() && 0 <= n < ids_of(x).len() && m != n implies ids_of(x)[m]
            != ids_of(x)[n] by {
            assert(ids_of(a)[m] != ids_of(a)[n]);
        }
        assert forall|m: int, n: int|
            0 <= m < ids_of(y).len() && 0 <= n < ids_of(y).len() && m != n implies ids_of(y)[m]
            != ids_of(y)[n] by {
            assert(ids_of(b)[m] != ids_of(b)[n]);
        }
        assert forall|video: VideoView| x.contains(video) <==> y.contains(video) by {
            if x.contains(video) {
                let k = choose|k: int| 0 <= k < x.len() && x[k] == video;
                assert(a[k] == video);
                assert(a.contains(video));
                let m = choose|m: int| 0 <= m < b.len() && b[m] == video;
                assert(ids_of(a)[k] != ids_of(a)[a.len() - 1]);
                assert(y[m] == video);
            }
            if y.contains(video) {
                let k = choose|k: int| 0 <= k < y.len() && y[k] == video;
                assert(b[k] == video);
                assert(b.contains(video));
                let m = choose|m: int| 0 <= m < a.len() && a[m] == video;
                assert(ids_of(b)[k] != ids_of(b)[b.len() - 1]);
                assert(x[m] == video);
            }
        }
        lemma_order_unique(x, y);
        assert(a =~= x.push(p));
        assert(b =~= y.push(q));
    }
}

/// The order on the watch-later tab does not depend on the order in which the videos came: as
/// long as they are the same, it stays.
pub proof fn watch_later_order_is_stable(
    videos: Seq<VideoView>,
    others: Seq<VideoView>,
    watch_later: Set<Seq<char>>,
)
    requires
        ids_of(videos).no_duplicates(),
        ids_of(others).no_duplicates(),
        forall|video: VideoView|
            watch_later.contains(video.video_id) ==> (videos.contains(video) <==> others.contains(
                video,
            )),
    ensures
        watch_later_list(videos, watch_later) == watch_later_list(others, watch_later),
{
    watch_later_videos_are_shown_newest_first(videos, watch_later);
    watch_later_videos_are_shown_newest_first(others, watch_later);
    lemma_list_distinct(videos, watch_later);
    lemma_list_distinct(others, watch_later);
    let (a, b) = (watch_later_list(videos, watch_later), watch_later_list(others, watch_later));
    assert forall|video: VideoView| a.contains(video) <==> b.contains(video) by {
        assert(a.contains(video) <==> videos.contains(video) && watch_later.contains(
            video.video_id,
        ));
        assert(b.contains(video) <==> others.contains(video) && watch_later.contains(
            video.video_id,
        ));
    }
    lemma_order_unique(a, b);
}

fn is_shown_before(a: &Video, b: &Video) -> (r: bool)
    ensures
        r == shown_before(a@, b@),
{
    a.published.after(&b.published) || (a.published == b.published && text_at_most(
        a.video_id.as_str(),
        b.video_id.as_str(),
    ))
}

/// The watch-later videos, the newest first.
pub fn watch_later_ids_sorted(state: &AppState) -> (ids: Vec<String>)
    requires
        state.wf(),
    ensures
        texts(ids@) == ids_of(watch_later_list(state@.videos, state@.watch_later)),
{
    let videos = state.videos();
    let ghost all = state@.videos;
    let mut list: Vec<Video> = Vec::new();
    let mut i: usize = 0;
    assert(video_views(list@) =~= watch_later_list(all.take(0), state@.watch_later));
    while i < videos.len()
        invariant
            i <= videos.len(),
            state.wf(),
            all == state@.videos,
            all == video_views(videos@),
            video_views(list@) == watch_later_list(all.take(i as int), state@.watch_later),
        decreases videos.len() - i,
    {
        let ghost before = video_views(list@);
        let ghost video_view = all[i as int];
        assert(all.take(i + 1).drop_last() =~= all.take(i as int));
        if state.watch_later().contains(videos[i].video_id.as_str()) {
            let mut at: usize = 0;
            assert(before.skip(0) =~= before);
            while at < list.len() && is_shown_before(&list[at], &videos[i])
                invariant
                    i < videos.len(),
                    at <= list.len(),
                    before == video_views(list@),
                    video_view == videos@[i as int]@,
                    shown_slot(before, video_view) == at + shown_slot(
                        before.skip(at as int),
                        video_view,
                    ),
                decreases list.len() - at,
            {
                assert(before.skip(at as int)[0] == list@[at as int]@);
                assert(before.skip(at as int).drop_first() =~= before.skip(at + 1));
                at += 1;
            }
            assert(at < list.len() ==> before.skip(at as int)[0] == list@[at as int]@);
            let copy = videos[i].clone();
            list.insert(at, copy);
            assert(video_views(list@) =~= before.insert(at as int, video_view));
        }
        i += 1;
    }
    assert(all.take(all.len() as int) =~= all);
    let ghost shown = ids_of(video_views(list@));
    let mut ids: Vec<String> = Vec::new();
    let mut k: usize = 0;
    assert(texts(ids@) =~= shown.take(0));
    while k < list.len()
        invariant
            k <= list.len(),
            shown == ids_of(video_views(list@)),
            texts(ids@) == shown.take(k as int),
        decreases list.len() - k,
    {
        let ghost before = texts(ids@);
        let id = list[k].video_id.clone();
        ids.push(id);
        assert(texts(ids@) =~= before.push(id@));
        assert(shown.take(k + 1) =~= before.push(id@));
        k += 1;
    }
    assert(shown.take(shown.len() as int) =~= shown);
    ids
}

/// The videos that a tab shows.
pub open spec fn tab_ids(state: StateView, tab: Tab) -> Seq<Seq<char>> {
    match tab {
        Tab::Feed => state.feed,
        Tab::Search => state.search,
        Tab::WatchLater => ids_of(watch_later_list(state.videos, state.watch_later)),
    }
}

fn copied(ids: &Vec<String>) -> (r: Vec<String>)
    ensures
        texts(r@) == texts(ids@),
{
    let r = ids.clone();
    assert(r@ =~= ids@);
    r
}

/// The videos that a tab shows.
pub fn video_ids_for_tab(state: &AppState, tab: Tab) -> (ids: Vec<String>)
    requires
        state.wf(),
    ensures
        texts(ids@) == tab_ids(state@, tab),
{
    match tab {
        Tab::Feed => copied(state.feed_video_ids()),
        Tab::Search => copied(state.search_video_ids()),
        Tab::WatchLater => watch_later_ids_sorted(state),
    }
}

/// Where the card of a video stands on the watch-later tab, if it is shown there.
pub fn watch_later_insert_position(state: &AppState, video_id: &str) -> (r: Option<usize>)
    requires
        state.wf(),
    ensures
        match r {
            Some(i) => index_of(
                ids_of(watch_later_list(state@.videos, state@.watch_later)),
                video_id@,
            ) == Some(i as int),
            None => index_of(
                ids_of(watch_later_list(state@.videos, state@.watch_later)),
                video_id@,
            ) is None,
        },
{
    let ids = watch_later_ids_sorted(state);
    proof {
        lemma_index_of(texts(ids@), video_id@);
    }
    position(&ids, video_id)
}

/// What a card shows of its video's state.
#[derive(Debug, Clone, Copy, PartialEq, Eq, Structural)]
pub struct CardFlags {
    pub is_watch_later: bool,
    pub is_downloaded: bool,
    pub is_downloading: bool,
    pub has_ai_summary: bool,
    pub is_watched: bool,
}

/// What the card of a video shows of its state.
pub open spec fn flags_of(
    state: StateView,
    downloading: Set<Seq<char>>,
    video: VideoView,
) -> CardFlags {
    CardFlags {
        is_watch_later: state.watch_later.contains(video.video_id),
        is_downloaded: state.downloaded.contains(video.video_id),
        is_downloading: downloading.contains(video.video_id),
        has_ai_summary: has_summary(video),
        is_watched: video.watched,
    }
}

/// What the card of a video shows of its state.
pub fn card_flags_for_video(state: &AppState, downloads_in_progress: &IdSet, video: &Video) -> (
    flags: CardFlags)
    requires
        state.wf(),
    ensures
        flags == flags_of(state@, downloads_in_progress@, video@),
{
    let id = video.video_id();
    CardFlags {
        is_watch_later: state.watch_later().contains(id),
        is_downloaded: state.downloaded_video_ids().contains(id),
        is_downloading: downloads_in_progress.contains(id),
        has_ai_summary: video.has_ai_summary(),
        is_watched: video.is_watched(),
    }
}

/// The state that the card of a video is built from, if there is the video.
pub fn build_video_card(state: &AppState, downloads_in_progress: &IdSet, video_id: &str) -> (r:
    Option<(Video, CardFlags)>)
    requires
        state.wf(),
    ensures
        match r {
            Some((video, flags)) => video_with_id(state@.videos, video_id@) == Some(video@)
                && flags == flags_of(state@, downloads_in_progress@, video@),
            None => video_with_id(state@.videos, video_id@) is None,
        },
{
    match state.video_by_id(video_id) {
        Some(video) => {
            let flags = card_flags_for_video(state, downloads_in_progress, video);
            Some((video.clone(), flags))
        },
        None => None,
    }
}

impl CardFlags {
    /// What the card says of the download. A running download hides that there is an older
    /// one.
    pub fn download_badge(self) -> (badge: DownloadBadge)
        ensures
            badge == if self.is_downloading {
                DownloadBadge::Downloading
            } else if self.is_downloaded {
                DownloadBadge::Downloaded
            } else {
                DownloadBadge::Clear
            },
    {
        if self.is_downloading {
            DownloadBadge::Downloading
        } else if self.is_downloaded {
            DownloadBadge::Downloaded
        } else {
            DownloadBadge::Clear
        }
    }
}

/// How the watch-later button of a card looks.
#[derive(Debug)]
pub struct ToggleLook {
    pub widget_name: &'static str,
    pub label: &'static str,
    pub tooltip: &'static str,
}

/// How the watch-later button of a card looks.
pub fn set_watch_later_toggle_state(is_watch_later: bool) -> (look: ToggleLook)
    ensures
        look.widget_name@ == if is_watch_later {
            "watch-later-toggle-active"@
        } else {
            "watch-later-toggle"@
        },
        look.label@ == if is_watch_later {
            "x"@
        } else {
            "+"@
        },
        look.tooltip@ == if is_watch_later {
            "Remove from Watch Later"@
        } else {
            "Add to Watch Later"@
        },
{
    if is_watch_later {
        ToggleLook {
            widget_name: "watch-later-toggle-active",
            label: "x",
            tooltip: "Remove from Watch Later",
        }
    } else {
        ToggleLook {
            widget_name: "watch-later-toggle",
            label: "+",
            tooltip: "Add to Watch Later",
        }
    }
}

/// A number below one hundred, with two digits.
pub open spec fn two_digits(n: nat) -> Seq<char> {
    if n < 10 {
        "0"@ + decimal(n)
    } else {
        decimal(n)
    }
}

/// A duration in hours, if there are any, minutes and seconds.
pub open spec fn duration_text(seconds: nat) -> Seq<char> {
    if seconds >= 3600 {
        decimal(seconds / 3600) + ":"@ + two_digits(seconds % 3600 / 60) + ":"@ + two_digits(
            seconds % 60,
        )
    } else {
        decimal(seconds / 60) + ":"@ + two_digits(seconds % 60)
    }
}

fn push_two_digits(text: &mut String, n: u32)
    requires
        n < 100,
    ensures
        final(text)@ == old(text)@ + two_digits(n as nat),
{
    let ghost before = text@;
    if n < 10 {
        text.append("0");
    }
    push_decimal(text, n as u64);
    assert(text@ =~= before + two_digits(n as nat));
}

/// A duration in hours, if there are any, minutes and seconds.
pub fn format_video_duration(total_seconds: u32) -> (r: String)
    ensures
        r@ == duration_text(total_seconds as nat),
{
    let hours: u32 = total_seconds / 3600;
    let minutes: u32 = (total_seconds % 3600) / 60;
    let seconds: u32 = total_seconds % 60;
    let mut text = String::new();
    if hours > 0 {
        push_decimal(&mut text, hours as u64);
        text.append(":");
        push_two_digits(&mut text, minutes);
    } else {
        push_decimal(&mut text, minutes as u64);
    }
    text.append(":");
    push_two_digits(&mut text, seconds);
    proof {
        let n = total_seconds as nat;
        if n < 3600 {
            assert(n % 3600 == n);
        }
        assert(text@ =~= duration_text(n));
    }
    text
}

/// How long ago a video was published, roughly; `seconds` is what has to pass from now to that
/// time.
pub fn format_time_ago(seconds: i64) -> (r: String)
    requires
        -LONGEST_SPAN <= seconds <= LONGEST_SPAN,
    ensures
        r@ == rough_age(seconds),
{
    rough_age_text(seconds)
}

/// What a card says of the time and the duration of its video.
pub open spec fn time_text(time_ago: Seq<char>, duration: Option<u32>) -> Seq<char> {
    match duration {
        Some(seconds) => time_ago + " • "@ + duration_text(seconds as nat),
        None => time_ago,
    }
}

/// What a card says of the time and the duration of its video.
pub fn time_and_duration(time_ago: String, duration: Option<u32>) -> (r: String)
    ensures
        r@ == time_text(time_ago@, duration),
{
    match duration {
        Some(seconds) => time_ago.concat(" • ").concat(format_video_duration(seconds).as_str()),
        None => time_ago,
    }
}

/// A thumbnail to fetch where there is no file at the path.
#[derive(Debug)]
pub struct ThumbnailDownload {
    pub video_id: String,
    pub url: String,
    pub path: String,
}

/// What a [`ThumbnailDownload`] holds: the video, the address and the path.
pub open spec fn thumbnail_views(items: Seq<ThumbnailDownload>) -> Seq<
    (Seq<char>, Seq<char>, Seq<char>),
> {
    items.map_values(|item: ThumbnailDownload| (item.video_id@, item.url@, item.path@))
}

/// The thumbnails of videos: for each its identifier, its address and its path in the cache.
pub open spec fn thumbnails_of(videos: Seq<VideoView>, roots: Roots) -> Seq<
    (Seq<char>, Seq<char>, Seq<char>),
> {
    videos.map_values(
        |video: VideoView|
            (
                video.video_id,
                video.thumbnail_url,
                joined_path(
                    area_path(roots, CacheArea::Thumbnails),
                    thumbnail_file_name(video.video_id),
                ),
            ),
    )
}

/// The thumbnails of videos.
pub fn thumbnail_candidates(videos: &Vec<Video>, storage: &Storage) -> (items: Vec<
    ThumbnailDownload,
>)
    requires
        storage.wf(),
    ensures
        thumbnail_views(items@) == thumbnails_of(video_views(videos@), storage@),
{
    let mut items: Vec<ThumbnailDownload> = Vec::new();
    let mut i: usize = 0;
    while i < videos.len()
        invariant
            i <= videos.len(),
            items.len() == i,
            storage.wf(),
            forall|k: int|
                0 <= k < i ==> {
                    let video = videos@[k]@;
                    &&& (#[trigger] items@[k]).video_id@ == video.video_id
                    &&& items@[k].url@ == video.thumbnail_url
                    &&& items@[k].path@ == joined_path(
                        area_path(storage@, CacheArea::Thumbnails),
                        thumbnail_file_name(video.video_id),
                    )
                },
        decreases videos.len() - i,
    {
        let video = &videos[i];
        let path = storage.thumbnail_path(video.video_id());
        items.push(
            ThumbnailDownload {
                video_id: video.video_id.clone(),
                url: video.thumbnail_url.clone(),
                path,
            },
        );
        i += 1;
    }
    assert(thumbnail_views(items@) =~= thumbnails_of(video_views(videos@), storage@));
    items
}

/// The width of a card.
pub const CARD_WIDTH: i32 = 320;

/// The space between cards.
pub const CARD_SPACING: i32 = 16;

/// The space around the cards.
pub const GRID_PADDING: i32 = 16;

/// The height of a thumbnail, for the card's width and an aspect ratio of sixteen to nine.
pub const THUMBNAIL_HEIGHT: i32 = 180;

/// The width that so many cards take next to each other.
pub open spec fn columns_width(columns: int) -> int {
    columns * CARD_WIDTH + (columns - 1) * CARD_SPACING
}

/// The width of as many cards as fit next to each other into a viewport, at least one.
pub fn update_flow_width(viewport_width: i32) -> (width: i32)
    requires
        viewport_width >= i32::MIN + 2 * GRID_PADDING,
    ensures
        exists|columns: int|
            columns >= 1 && width == #[trigger] columns_width(columns) && (columns == 1
                || columns_width(columns) <= viewport_width - 2 * GRID_PADDING)
                && columns_width(columns + 1) > viewport_width - 2 * GRID_PADDING,
{
    let available: i32 = if viewport_width - GRID_PADDING * 2 > 1 {
        viewport_width - GRID_PADDING * 2
    } else {
        1
    };
    let fitting: i32 = (available + CARD_SPACING) / (CARD_WIDTH + CARD_SPACING);
    let columns: i32 = if fitting > 1 {
        fitting
    } else {
        1
    };
    assert(columns_width(columns as int) == columns * 336 - 16) by (nonlinear_arith)
        requires
            columns_width(columns as int) == columns * 320 + (columns - 1) * 16,
    ;
    assert(columns_width(columns + 1) == columns * 336 + 320) by (nonlinear_arith)
        requires
            columns_width(columns + 1) == (columns + 1) * 320 + columns * 16,
    ;
    columns * CARD_WIDTH + (columns - 1) * CARD_SPACING
}

/// On the watch-later tab no video stands behind an older one, and of two videos of one time
/// the one with the smaller identifier stands first.
pub proof fn newer_videos_stand_before_older_ones(
    videos: Seq<VideoView>,
    watch_later: Set<Seq<char>>,
    i: int,
    j: int,
)
    requires
        0 <= i < j < watch_later_list(videos, watch_later).len(),
    ensures
        ({
            let first = watch_later_list(videos, watch_later)[i];
            let second = watch_later_list(videos, watch_later)[j];
            &&& first.published.secs >= second.published.secs
            &&& first.published.secs == second.published.secs ==> first.published.nanos
                >= second.published.nanos
            &&& first.published == second.published ==> text_le(first.video_id, second.video_id)
        }),
{
    watch_later_videos_are_shown_newest_first(videos, watch_later);
    let list = watch_later_list(videos, watch_later);
    assert(shown_before(list[i], list[j]));
}

/// Every tab shows its own videos: the feed and the search results as they are, and the
/// watch-later tab the known videos that are on the list.
pub proof fn tabs_show_their_own_videos(state: StateView, id: Seq<char>)
    ensures
        tab_ids(state, Tab::Feed) == state.feed,
        tab_ids(state, Tab::Search) == state.search,
        tab_ids(state, Tab::WatchLater).contains(id) <==> state.watch_later.contains(id) && ids_of(
            state.videos,
        ).contains(id),
{
    watch_later_videos_are_shown_newest_first(state.videos, state.watch_later);
    let list = watch_later_list(state.videos, state.watch_later);
    if ids_of(list).contains(id) {
        let k = choose|k: int| 0 <= k < ids_of(list).len() && ids_of(list)[k] == id;
        assert(list.contains(list[k]));
        assert(state.videos.contains(list[k]));
        let m = choose|m: int| 0 <= m < state.videos.len() && state.videos[m] == list[k];
        assert(ids_of(state.videos)[m] == id);
    }
    if state.watch_later.contains(id) && ids_of(state.videos).contains(id) {
        let m = choose|m: int| 0 <= m < state.videos.len() && ids_of(state.videos)[m] == id;
        assert(state.videos.contains(state.videos[m]));
        assert(list.contains(state.videos[m]));
        let k = choose|k: int| 0 <= k < list.len() && list[k] == state.videos[m];
        assert(ids_of(list)[k] == id);
    }
}

/// What a card shows goes by its own video: the lists by the identifier, and the summary and
/// the watched mark by the video itself.
pub proof fn cards_show_the_state_of_their_video(
    state: StateView,
    downloading: Set<Seq<char>>,
    video: VideoView,
)
    ensures
        ({
            let flags = flags_of(state, downloading, video);
            &&& flags.is_watch_later <==> state.watch_later.contains(video.video_id)
            &&& flags.is_downloaded <==> state.downloaded.contains(video.video_id)
            &&& flags.is_downloading <==> downloading.contains(video.video_id)
            &&& flags.has_ai_summary <==> has_summary(video)
            &&& flags.is_watched <==> video.watched
        }),
{
}

/// A duration is told in hours, minutes and seconds: the last two with two digits each, and
/// the hours left out where there are none; what is told comes to the duration.
pub proof fn durations_are_told_in_hours_minutes_and_seconds(hours: nat, minutes: nat, seconds: nat)
    requires
        minutes < 60,
        seconds < 60,
    ensures
        two_digits(seconds) == seq![digit_char(seconds / 10), digit_char(seconds % 10)],
        duration_text(minutes * 60 + seconds) == decimal(minutes) + seq![
            ':',
            digit_char(seconds / 10),
            digit_char(seconds % 10),
        ],
        hours > 0 ==> duration_text(hours * 3600 + minutes * 60 + seconds) == decimal(hours)
            + seq![
            ':',
            digit_char(minutes / 10),
            digit_char(minutes % 10),
            ':',
            digit_char(seconds / 10),
            digit_char(seconds % 10),
        ],
{
    reveal_strlit("0");
    reveal_strlit(":");
    assert forall|n: nat| n < 60 implies #[trigger] two_digits(n) == seq![
        digit_char(n / 10),
        digit_char(n % 10),
    ] by {
        assert(digit_char(0) == '0');
        if n < 10 {
            assert(two_digits(n) =~= seq![digit_char(n / 10), digit_char(n % 10)]);
        } else {
            assert(decimal(n / 10) == seq![digit_char(n / 10)]);
            assert(two_digits(n) =~= seq![digit_char(n / 10), digit_char(n % 10)]);
        }
    }
    let short = minutes * 60 + seconds;
    assert(short / 60 == minutes && short % 60 == seconds);
    assert(duration_text(short) =~= decimal(minutes) + seq![
        ':',
        digit_char(seconds / 10),
        digit_char(seconds % 10),
    ]);
    if hours > 0 {
        let long = hours * 3600 + minutes * 60 + seconds;
        assert(long / 3600 == hours && long % 3600 == short && long % 60 == seconds);
        assert(duration_text(long) =~= decimal(hours) + seq![
            ':',
            digit_char(minutes / 10),
            digit_char(minutes % 10),
            ':',
            digit_char(seconds / 10),
            digit_char(seconds % 10),
        ]);
    }
}

/// A card tells the time and, behind a dot, the duration where it is known.
pub proof fn cards_tell_the_duration_behind_the_time(time_ago: Seq<char>, seconds: u32)
    ensures
        time_text(time_ago, None) == time_ago,
        time_text(time_ago, Some(seconds)) == time_ago + " • "@ + duration_text(seconds as nat),
{
}

/// Every further card takes its width and one space more, and a single card its width.
pub proof fn cards_take_their_width(columns: int)
    ensures
        columns_width(1) == 320,
        columns_width(columns + 1) - columns_width(columns) == 320 + 16,
        columns_width(columns) + 2 * GRID_PADDING == 336 * columns + 16,
{
    assert(columns_width(columns) == columns * 336 - 16) by (nonlinear_arith)
        requires
            columns_width(columns) == columns * 320 + (columns - 1) * 16,
    ;
    assert(columns_width(columns + 1) == columns * 336 + 320) by (nonlinear_arith)
        requires
            columns_width(columns + 1) == (columns + 1) * 320 + columns * 16,
    ;
}

/// Every video has one thumbnail, in its place: fetched from the video's own address, and kept
/// in the directory of thumbnails under a name that the identifier gives.
pub proof fn every_video_has_its_thumbnail(videos: Seq<VideoView>, roots: Roots, i: int)
    requires
        0 <= i < videos.len(),
    ensures
        thumbnails_of(videos, roots).len() == videos.len(),
        thumbnails_of(videos, roots)[i].0 == videos[i].video_id,
        thumbnails_of(videos, roots)[i].1 == videos[i].thumbnail_url,
        thumbnails_of(videos, roots)[i].2 == joined_path(
            joined_path(roots.cache, "thumbnails"@),
            thumbnail_file_name(videos[i].video_id),
        ),
{
}

} // verus!
