//! The videos that are known, and which of them the tabs show.

use crate::data::{ids_of, listed_ids, video_views, Video, VideoView};
use crate::ids::{position, IdSet};
use crate::text::texts;
use crate::ui::videos::{
    index_of, lemma_index_of, lemma_with_video_distinct, video_with_id, with_videos, Videos,
};
use vstd::prelude::*;

verus! {

/// The videos, what the tabs show of them and which of them are downloaded.
pub struct AppState {
    videos: Videos,
    feed_video_ids: Vec<String>,
    search_result_ids: Vec<String>,
    watch_later: IdSet,
    downloaded_video_ids: IdSet,
    legacy_video_ids: IdSet,
}

/// What an [`AppState`] holds.
#[verifier::ext_equal]
pub struct StateView {
    /// The videos, in the order in which they came, each identifier once.
    pub videos: Seq<VideoView>,
    /// The feed, in the order in which it is shown.
    pub feed: Seq<Seq<char>>,
    /// The search results, in the order in which they are shown.
    pub search: Seq<Seq<char>>,
    pub watch_later: Set<Seq<char>>,
    /// The videos with a finished download.
    pub downloaded: Set<Seq<char>>,
    /// The videos with legacy downloads only.
    pub legacy: Set<Seq<char>>,
}

impl View for AppState {
    type V = StateView;

    closed spec fn view(&self) -> StateView {
        StateView {
            videos: self.videos@,
            feed: texts(self.feed_video_ids@),
            search: texts(self.search_result_ids@),
            watch_later: self.watch_later@,
            downloaded: self.downloaded_video_ids@,
            legacy: self.legacy_video_ids@,
        }
    }
}

/// A change to what is kept beside a video.
#[derive(Debug)]
pub enum SidecarSave {
    Watched { video_id: String, watched: bool },
    Transcript { video_id: String, text: String },
    Summary { video_id: String, text: String },
}

/// What a [`SidecarSave`] holds.
#[verifier::ext_equal]
pub enum SaveView {
    Watched { video_id: Seq<char>, watched: bool },
    Transcript { video_id: Seq<char>, text: Seq<char> },
    Summary { video_id: Seq<char>, text: Seq<char> },
}

impl View for SidecarSave {
    type V = SaveView;

    open spec fn view(&self) -> SaveView {
        match *self {
            SidecarSave::Watched { video_id, watched } => SaveView::Watched {
                video_id: video_id@,
                watched,
            },
            SidecarSave::Transcript { video_id, text } => SaveView::Transcript {
                video_id: video_id@,
                text: text@,
            },
            SidecarSave::Summary { video_id, text } => SaveView::Summary {
                video_id: video_id@,
                text: text@,
            },
        }
    }
}

/// A video that is not known any more.
#[derive(Debug)]
pub enum CacheVideoError {
    MissingVideo { video_id: String },
}

impl CacheVideoError {
    pub fn message(&self) -> (r: String)
        ensures
            r@ == match *self {
                CacheVideoError::MissingVideo { video_id } => "Video "@ + video_id@
                    + " is no longer available"@,
            },
    {
        match self {
            CacheVideoError::MissingVideo { video_id } => "Video ".to_owned().concat(
                video_id.as_str(),
            ).concat(" is no longer available"),
        }
    }
}

/// Whether a change of a video was made, which is so where there is the video.
pub open spec fn change_reported(
    videos: Seq<VideoView>,
    id: Seq<char>,
    result: Result<(), CacheVideoError>,
) -> bool {
    match result {
        Ok(()) => index_of(ids_of(videos), id) is Some,
        Err(CacheVideoError::MissingVideo { video_id }) => index_of(ids_of(videos), id) is None
            && video_id@ == id,
    }
}

/// The videos after the one with an identifier, if there is one, is replaced.
pub open spec fn with_changed(
    videos: Seq<VideoView>,
    id: Seq<char>,
    change: spec_fn(VideoView) -> VideoView,
) -> Seq<VideoView> {
    match index_of(ids_of(videos), id) {
        Some(i) => videos.update(i, change(videos[i])),
        None => videos,
    }
}

/// The watch-later videos among `videos` that are not incoming.
pub open spec fn preserved_videos(
    videos: Seq<VideoView>,
    watch_later: Set<Seq<char>>,
    incoming: Seq<Seq<char>>,
) -> Seq<VideoView>
    decreases videos.len(),
{
    if videos.len() == 0 {
        Seq::empty()
    } else {
        let preserved = preserved_videos(videos.drop_last(), watch_later, incoming);
        if watch_later.contains(videos.last().video_id) && !incoming.contains(
            videos.last().video_id,
        ) {
            preserved.push(videos.last())
        } else {
            preserved
        }
    }
}

/// The state after a refresh: the incoming videos and, behind them, the watch-later videos
/// that were known; the feed is what came in.
pub open spec fn refreshed(state: StateView, incoming: Seq<VideoView>) -> StateView {
    StateView {
        videos: with_videos(
            with_videos(Seq::empty(), incoming),
            preserved_videos(state.videos, state.watch_later, ids_of(incoming)),
        ),
        feed: ids_of(incoming),
        ..state
    }
}

/// Identifiers with every repetition left out.
pub open spec fn first_occurrences(ids: Seq<Seq<char>>) -> Seq<Seq<char>>
    decreases ids.len(),
{
    if ids.len() == 0 {
        Seq::empty()
    } else {
        let first = first_occurrences(ids.drop_last());
        if ids.drop_last().contains(ids.last()) {
            first
        } else {
            first.push(ids.last())
        }
    }
}

/// The state after a search.
pub open spec fn searched(state: StateView, results: Seq<VideoView>) -> StateView {
    StateView {
        videos: with_videos(state.videos, results),
        search: first_occurrences(ids_of(results)),
        ..state
    }
}

/// The videos that are saved: those of the feed and of the watch-later list.
pub open spec fn persistable(
    videos: Seq<VideoView>,
    feed: Seq<Seq<char>>,
    watch_later: Set<Seq<char>>,
) -> Seq<VideoView>
    decreases videos.len(),
{
    if videos.len() == 0 {
        Seq::empty()
    } else {
        let kept = persistable(videos.drop_last(), feed, watch_later);
        if feed.contains(videos.last().video_id) || watch_later.contains(videos.last().video_id) {
            kept.push(videos.last())
        } else {
            kept
        }
    }
}

proof fn lemma_first_occurrences(ids: Seq<Seq<char>>)
    ensures
        forall|id: Seq<char>| #[trigger] first_occurrences(ids).contains(id) <==> ids.contains(id),
        first_occurrences(ids).no_duplicates(),
    decreases ids.len(),
{
    if ids.len() > 0 {
        let rest = ids.drop_last();
        lemma_first_occurrences(rest);
        let first = first_occurrences(rest);
        assert(ids =~= rest.push(ids.last()));
        assert forall|id: Seq<char>| #[trigger] first_occurrences(ids).contains(id)
            <==> ids.contains(id) by {
            if ids.contains(id) {
                let k = choose|k: int| 0 <= k < ids.len() && ids[k] == id;
                if k < rest.len() {
                    assert(rest[k] == id);
                    assert(first.contains(id));
                    let m = choose|m: int| 0 <= m < first.len() && first[m] == id;
                    assert(first_occurrences(ids)[m] == id);
                } else if rest.contains(ids.last()) {
                    assert(first.contains(id));
                } else {
                    assert(first_occurrences(ids)[first.len() as int] == id);
                }
            }
            if first_occurrences(ids).contains(id) {
                let m = choose|m: int|
                    0 <= m < first_occurrences(ids).len() && first_occurrences(ids)[m] == id;
                if m < first.len() {
                    assert(first[m] == id);
                    assert(first.contains(id));
                    let k = choose|k: int| 0 <= k < rest.len() && rest[k] == id;
                    assert(ids[k] == id);
                } else {
                    assert(ids[ids.len() - 1] == id);
                }
            }
        }
        assert(!rest.contains(ids.last()) ==> !first.contains(ids.last()));
    }
}

/// Search results are shown once each, and all of them.
pub proof fn search_results_are_shown_once(ids: Seq<Seq<char>>)
    ensures
        first_occurrences(ids).no_duplicates(),
        first_occurrences(ids).to_set() == ids.to_set(),
{
    lemma_first_occurrences(ids);
    assert(first_occurrences(ids).to_set() =~= ids.to_set());
}

/// A search changes neither the feed nor the watch-later list nor what is downloaded, and
/// every result is known afterwards.
pub proof fn searches_leave_the_feed(state: StateView, results: Seq<VideoView>)
    requires
        ids_of(state.videos).no_duplicates(),
    ensures
        searched(state, results).feed == state.feed,
        searched(state, results).watch_later == state.watch_later,
        searched(state, results).downloaded == state.downloaded,
        forall|id: Seq<char>| #[trigger]
            ids_of(results).contains(id) ==> video_with_id(
                searched(state, results).videos,
                id,
            ) is Some,
        forall|id: Seq<char>| #[trigger]
            video_with_id(state.videos, id) is Some ==> video_with_id(
                searched(state, results).videos,
                id,
            ) is Some,
{
    lemma_with_videos(state.videos, results);
}

/// What is saved is what the feed or the watch-later list holds of the known videos: no
/// search result is saved that is in neither.
pub proof fn only_feed_and_watch_later_videos_are_saved(
    videos: Seq<VideoView>,
    feed: Seq<Seq<char>>,
    watch_later: Set<Seq<char>>,
    video: VideoView,
)
    ensures
        persistable(videos, feed, watch_later).contains(video) <==> videos.contains(video) && (
        feed.contains(video.video_id) || watch_later.contains(video.video_id)),
    decreases videos.len(),
{
    if videos.len() > 0 {
        let rest = videos.drop_last();
        only_feed_and_watch_later_videos_are_saved(rest, feed, watch_later, video);
        let kept = persistable(rest, feed, watch_later);
        let after = persistable(videos, feed, watch_later);
        assert(videos =~= rest.push(videos.last()));
        if videos.contains(video) && (feed.contains(video.video_id) || watch_later.contains(
            video.video_id,
        )) {
            let k = choose|k: int| 0 <= k < videos.len() && videos[k] == video;
            if k < rest.len() {
                assert(rest[k] == video);
                let m = choose|m: int| 0 <= m < kept.len() && kept[m] == video;
                assert(after[m] == video);
            } else {
                assert(after[kept.len() as int] == video);
            }
        }
        if after.contains(video) {
            let m = choose|m: int| 0 <= m < after.len() && after[m] == video;
            if m < kept.len() {
                assert(kept[m] == video);
                let k = choose|k: int| 0 <= k < rest.len() && rest[k] == video;
                assert(videos[k] == video);
            } else {
                assert(videos[videos.len() - 1] == video);
            }
        }
    }
}

/// After videos have come, the known ones are those that were known and those that came, and
/// identifiers stay distinct.
pub proof fn lemma_with_videos(videos: Seq<VideoView>, others: Seq<VideoView>)
    requires
        ids_of(videos).no_duplicates(),
    ensures
        ids_of(with_videos(videos, others)).no_duplicates(),
        forall|id: Seq<char>| #[trigger]
            ids_of(others).contains(id) ==> video_with_id(with_videos(videos, others), id) is Some,
        forall|id: Seq<char>|
            !ids_of(others).contains(id) ==> #[trigger] video_with_id(
                with_videos(videos, others),
                id,
            ) == video_with_id(videos, id),
        forall|id: Seq<char>| #[trigger]
            video_with_id(videos, id) is Some ==> video_with_id(with_videos(videos, others), id) is Some,
    decreases others.len(),
{
    if others.len() > 0 {
        let rest = others.drop_last();
        let last = others.last();
        lemma_with_videos(videos, rest);
        let before = with_videos(videos, rest);
        let after = with_videos(videos, others);
        lemma_with_video_distinct(before, last);
        assert forall|id: Seq<char>| ids_of(others).contains(id) <==> (ids_of(rest).contains(id)
            || id == last.video_id) by {
            if ids_of(rest).contains(id) {
                let k = choose|k: int| 0 <= k < ids_of(rest).len() && ids_of(rest)[k] == id;
                assert(ids_of(others)[k] == id);
            }
            if ids_of(others).contains(id) {
                let k = choose|k: int| 0 <= k < ids_of(others).len() && ids_of(others)[k] == id;
                if k < rest.len() {
                    assert(ids_of(rest)[k] == id);
                }
            }
            assert(ids_of(others)[rest.len() as int] == last.video_id);
        }
        assert forall|id: Seq<char>| !ids_of(others).contains(id) implies #[trigger] video_with_id(
            after,
            id,
        ) == video_with_id(videos, id) by {
            assert(video_with_id(before, id) == video_with_id(videos, id));
        }
        assert forall|id: Seq<char>| #[trigger] ids_of(others).contains(id) implies video_with_id(
            after,
            id,
        ) is Some by {
            if id != last.video_id {
                assert(video_with_id(after, id) == video_with_id(before, id));
            }
        }
        assert forall|id: Seq<char>| #[trigger] video_with_id(videos, id) is Some implies
            video_with_id(after, id) is Some by {
            assert(video_with_id(before, id) is Some);
            if id != last.video_id {
                assert(video_with_id(after, id) == video_with_id(before, id));
            }
        }
    }
}

/// Among videos with distinct identifiers, looking one up finds it.
pub proof fn lemma_found(videos: Seq<VideoView>, video: VideoView)
    requires
        ids_of(videos).no_duplicates(),
    ensures
        videos.contains(video) <==> video_with_id(videos, video.video_id) == Some(video),
{
    let ids = ids_of(videos);
    lemma_index_of(ids, video.video_id);
    if videos.contains(video) {
        let k = choose|k: int| 0 <= k < videos.len() && videos[k] == video;
        assert(ids[k] == video.video_id);
        assert(ids.contains(video.video_id));
    }
}

proof fn lemma_with_distinct_videos(videos: Seq<VideoView>, others: Seq<VideoView>)
    requires
        ids_of(videos).no_duplicates(),
        ids_of(others).no_duplicates(),
    ensures
        forall|id: Seq<char>| #[trigger]
            ids_of(others).contains(id) ==> video_with_id(with_videos(videos, others), id)
                == video_with_id(others, id),
    decreases others.len(),
{
    if others.len() > 0 {
        let rest = others.drop_last();
        let last = others.last();
        assert forall|i: int, j: int|
            0 <= i < ids_of(rest).len() && 0 <= j < ids_of(rest).len() && i != j implies ids_of(
            rest,
        )[i] != ids_of(rest)[j] by {
            assert(ids_of(others)[i] != ids_of(others)[j]);
        }
        lemma_with_videos(videos, rest);
        lemma_with_distinct_videos(videos, rest);
        let before = with_videos(videos, rest);
        lemma_with_video_distinct(before, last);
        assert forall|id: Seq<char>| #[trigger] ids_of(others).contains(id) implies video_with_id(
            with_videos(videos, others),
            id,
        ) == video_with_id(others, id) by {
            let k = choose|k: int| 0 <= k < ids_of(others).len() && ids_of(others)[k] == id;
            let video = others[k];
            assert(others.contains(video));
            lemma_found(others, video);
            if k < rest.len() {
                assert(rest[k] == video);
                assert(rest.contains(video));
                lemma_found(rest, video);
                assert(ids_of(rest)[k] == id);
                assert(ids_of(rest).contains(id));
                assert(ids_of(others)[k] != ids_of(others)[rest.len() as int]);
            }
        }
    }
}

proof fn lemma_preserved(
    videos: Seq<VideoView>,
    watch_later: Set<Seq<char>>,
    incoming: Seq<Seq<char>>,
)
    requires
        ids_of(videos).no_duplicates(),
    ensures
        ids_of(preserved_videos(videos, watch_later, incoming)).no_duplicates(),
        forall|video: VideoView| #[trigger]
            preserved_videos(videos, watch_later, incoming).contains(video) <==> videos.contains(
                video,
            ) && watch_later.contains(video.video_id) && !incoming.contains(video.video_id),
    decreases videos.len(),
{
    if videos.len() > 0 {
        let rest = videos.drop_last();
        let last = videos.last();
        assert forall|i: int, j: int|
            0 <= i < ids_of(rest).len() && 0 <= j < ids_of(rest).len() && i != j implies ids_of(
            rest,
        )[i] != ids_of(rest)[j] by {
            assert(ids_of(videos)[i] != ids_of(videos)[j]);
        }
        lemma_preserved(rest, watch_later, incoming);
        let before = preserved_videos(rest, watch_later, incoming);
        let after = preserved_videos(videos, watch_later, incoming);
        assert forall|video: VideoView| #[trigger] after.contains(video) <==> videos.contains(video)
            && watch_later.contains(video.video_id) && !incoming.contains(video.video_id) by {
            if after.contains(video) {
                let m = choose|m: int| 0 <= m < after.len() && after[m] == video;
                if m < before.len() {
                    assert(before[m] == video);
                    assert(before.contains(video));
                    let k = choose|k: int| 0 <= k < rest.len() && rest[k] == video;
                    assert(videos[k] == video);
                } else {
                    assert(videos[videos.len() - 1] == video);
                }
            }
            if videos.contains(video) && watch_later.contains(video.video_id) && !incoming.contains(
                video.video_id,
            ) {
                let k = choose|k: int| 0 <= k < videos.len() && videos[k] == video;
                if k < rest.len() {
                    assert(rest[k] == video);
                    assert(before.contains(video));
                    let m = choose|m: int| 0 <= m < before.len() && before[m] == video;
                    assert(after[m] == video);
                } else {
                    assert(after[before.len() as int] == video);
                }
            }
        }
        if after.len() > before.len() {
            assert forall|m: int| 0 <= m < before.len() implies ids_of(before)[m]
                != last.video_id by {
                assert(before.contains(before[m]));
                let k = choose|k: int| 0 <= k < rest.len() && rest[k] == before[m];
                assert(ids_of(videos)[k] != ids_of(videos)[videos.len() - 1]);
            }
            assert(ids_of(after) =~= ids_of(before).push(last.video_id));
        }
    }
}

/// A refresh keeps what is known of the watch-later videos that did not come in, forgets the
/// other videos that did not come in, knows those that came in as they came, where each came
/// once, and shows them in the feed; the watch-later list and what is downloaded stay as they
/// were.
pub proof fn refreshes_keep_watch_later_videos(state: StateView, incoming: Seq<VideoView>)
    requires
        ids_of(state.videos).no_duplicates(),
    ensures
        ids_of(refreshed(state, incoming).videos).no_duplicates(),
        refreshed(state, incoming).feed == ids_of(incoming),
        refreshed(state, incoming).watch_later == state.watch_later,
        refreshed(state, incoming).downloaded == state.downloaded,
        forall|id: Seq<char>| #[trigger]
            ids_of(incoming).contains(id) ==> video_with_id(
                refreshed(state, incoming).videos,
                id,
            ) is Some,
        ids_of(incoming).no_duplicates() ==> forall|k: int|
            0 <= k < incoming.len() ==> video_with_id(
                refreshed(state, incoming).videos,
                (#[trigger] incoming[k]).video_id,
            ) == Some(incoming[k]),
        forall|id: Seq<char>|
            !ids_of(incoming).contains(id) ==> #[trigger] video_with_id(
                refreshed(state, incoming).videos,
                id,
            ) == if state.watch_later.contains(id) {
                video_with_id(state.videos, id)
            } else {
                None
            },
{
    let none = Seq::<VideoView>::empty();
    let came = with_videos(none, incoming);
    let preserved = preserved_videos(state.videos, state.watch_later, ids_of(incoming));
    let after = refreshed(state, incoming).videos;
    lemma_with_videos(none, incoming);
    lemma_preserved(state.videos, state.watch_later, ids_of(incoming));
    lemma_with_videos(came, preserved);
    lemma_with_distinct_videos(came, preserved);
    assert forall|id: Seq<char>| #[trigger] ids_of(preserved).contains(id) implies exists|v: VideoView|
        state.videos.contains(v) && v.video_id == id && preserved.contains(v)
            && state.watch_later.contains(id) && !ids_of(incoming).contains(id) by {
        let k = choose|k: int| 0 <= k < ids_of(preserved).len() && ids_of(preserved)[k] == id;
        assert(preserved.contains(preserved[k]));
    }
    assert forall|id: Seq<char>| #[trigger] ids_of(incoming).contains(id) implies video_with_id(
        after,
        id,
    ) is Some by {
        assert(video_with_id(came, id) is Some);
    }
    if ids_of(incoming).no_duplicates() {
        lemma_with_distinct_videos(none, incoming);
        assert forall|k: int| 0 <= k < incoming.len() implies video_with_id(
            after,
            (#[trigger] incoming[k]).video_id,
        ) == Some(incoming[k]) by {
            let id = incoming[k].video_id;
            assert(ids_of(incoming)[k] == id);
            assert(ids_of(incoming).contains(id));
            assert(incoming.contains(incoming[k]));
            lemma_found(incoming, incoming[k]);
            assert(!ids_of(preserved).contains(id));
            assert(video_with_id(after, id) == video_with_id(came, id));
        }
    }
    assert forall|id: Seq<char>| !ids_of(incoming).contains(id) implies #[trigger] video_with_id(
        after,
        id,
    ) == if state.watch_later.contains(id) {
        video_with_id(state.videos, id)
    } else {
        None
    } by {
        assert(video_with_id(came, id) == video_with_id(none, id));
        assert(video_with_id(none, id) is None);
        lemma_index_of(ids_of(state.videos), id);
        if ids_of(preserved).contains(id) {
            let v = choose|v: VideoView|
                state.videos.contains(v) && v.video_id == id && preserved.contains(v)
                    && state.watch_later.contains(id) && !ids_of(incoming).contains(id);
            lemma_found(state.videos, v);
            lemma_found(preserved, v);
        } else {
            assert(video_with_id(after, id) is None);
            if state.watch_later.contains(id) && index_of(ids_of(state.videos), id) is Some {
                let i = index_of(ids_of(state.videos), id)->0;
                let v = state.videos[i];
                assert(ids_of(state.videos)[i] == id);
                assert(state.videos.contains(v));
                assert(preserved.contains(v));
                let m = choose|m: int| 0 <= m < preserved.len() && preserved[m] == v;
                assert(ids_of(preserved)[m] == id);
            }
        }
    }
}

impl AppState {
    /// The known videos have distinct identifiers.
    pub closed spec fn wf(&self) -> bool {
        self.videos.wf() && self.watch_later.wf() && self.downloaded_video_ids.wf()
            && self.legacy_video_ids.wf()
    }

    /// No identifier occurs twice among the known videos.
    pub proof fn lemma_distinct(&self)
        requires
            self.wf(),
        ensures
            ids_of(self@.videos).no_duplicates(),
    {
        self.videos.lemma_distinct();
    }

    /// The state with which the window opens.
    pub fn new(
        videos: Vec<Video>,
        feed_video_ids: Vec<String>,
        watch_later: IdSet,
        downloaded_video_ids: IdSet,
        legacy_video_ids: IdSet,
    ) -> (r: Self)
        requires
            watch_later.wf(),
            downloaded_video_ids.wf(),
            legacy_video_ids.wf(),
        ensures
            r.wf(),
            r@ == (StateView {
                videos: with_videos(Seq::empty(), video_views(videos@)),
                feed: texts(feed_video_ids@),
                search: Seq::empty(),
                watch_later: watch_later@,
                downloaded: downloaded_video_ids@,
                legacy: legacy_video_ids@,
            }),
    {
        let mut known = Videos::new();
        known.extend(videos);
        let search_result_ids: Vec<String> = Vec::new();
        assert(texts(search_result_ids@) =~= Seq::<Seq<char>>::empty());
        AppState {
            videos: known,
            feed_video_ids,
            search_result_ids,
            watch_later,
            downloaded_video_ids,
            legacy_video_ids,
        }
    }

    /// Replaces the known videos; the feed shows all of them.
    pub fn set_videos(&mut self, videos: Vec<Video>)
        requires
            old(self).wf(),
        ensures
            final(self).wf(),
            final(self)@ == (StateView {
                videos: with_videos(Seq::empty(), video_views(videos@)),
                feed: ids_of(with_videos(Seq::empty(), video_views(videos@))),
                ..old(self)@
            }),
    {
        let mut known = Videos::new();
        known.extend(videos);
        let listed = known.to_vec();
        self.feed_video_ids = listed_ids(&listed);
        self.videos = known;
    }

    /// Takes in a refreshed feed.
    pub fn set_refreshed_feed_videos(&mut self, videos: Vec<Video>)
        requires
            old(self).wf(),
        ensures
            final(self).wf(),
            final(self)@ == refreshed(old(self)@, video_views(videos@)),
    {
        let feed_video_ids = listed_ids(&videos);
        let preserved = self.preserved(&feed_video_ids);
        self.set_videos(videos);
        self.videos.extend(preserved);
        self.feed_video_ids = feed_video_ids;
    }

    fn preserved(&self, incoming: &Vec<String>) -> (preserved: Vec<Video>)
        requires
            self.wf(),
        ensures
            video_views(preserved@) == preserved_videos(
                self@.videos,
                self@.watch_later,
                texts(incoming@),
            ),
    {
        let ghost all = self@.videos;
        let mut preserved: Vec<Video> = Vec::new();
        let n: usize = self.videos.len();
        let mut i: usize = 0;
        assert(video_views(preserved@) =~= preserved_videos(
            all.take(0),
            self@.watch_later,
            texts(incoming@),
        ));
        while i < n
            invariant
                i <= n,
                n == all.len(),
                all == self@.videos,
                self.wf(),
                video_views(preserved@) == preserved_videos(
                    all.take(i as int),
                    self@.watch_later,
                    texts(incoming@),
                ),
            decreases n - i,
        {
            let ghost before = video_views(preserved@);
            assert(all.take(i + 1).drop_last() =~= all.take(i as int));
            if let Some(video) = self.videos.at(i) {
                let id = video.video_id.as_str();
                if self.watch_later.contains(id) && position(incoming, id).is_none() {
                    let copy = video.clone();
                    preserved.push(copy);
                    assert(video_views(preserved@) =~= before.push(copy@));
                }
            }
            i += 1;
        }
        assert(all.take(all.len() as int) =~= all);
        preserved
    }

    /// Takes in search results.
    pub fn set_search_results(&mut self, videos: Vec<Video>)
        requires
            old(self).wf(),
        ensures
            final(self).wf(),
            final(self)@ == searched(old(self)@, video_views(videos@)),
    {
        let ids = listed_ids(&videos);
        let ghost all = texts(ids@);
        let mut search_result_ids: Vec<String> = Vec::new();
        let mut i: usize = 0;
        assert(texts(search_result_ids@) =~= first_occurrences(all.take(0)));
        while i < ids.len()
            invariant
                i <= ids.len(),
                all == texts(ids@),
                texts(search_result_ids@) == first_occurrences(all.take(i as int)),
            decreases ids.len() - i,
        {
            let ghost before = texts(search_result_ids@);
            proof {
                assert(all.take(i + 1).drop_last() =~= all.take(i as int));
                assert(all.take(i + 1).last() == ids@[i as int]@);
                lemma_first_occurrences(all.take(i as int));
            }
            match position(&search_result_ids, ids[i].as_str()) {
                Some(k) => {
                    assert(before[k as int] == ids@[i as int]@);
                    assert(before.contains(ids@[i as int]@));
                },
                None => {
                    assert(!before.contains(ids@[i as int]@));
                    let id = ids[i].clone();
                    search_result_ids.push(id);
                    assert(texts(search_result_ids@) =~= before.push(id@));
                },
            }
            i += 1;
        }
        assert(all.take(all.len() as int) =~= all);
        self.videos.extend(videos);
        self.search_result_ids = search_result_ids;
    }

    /// The video with an identifier.
    pub fn video_by_id(&self, video_id: &str) -> (r: Option<&Video>)
        requires
            self.wf(),
        ensures
            match r {
                Some(video) => video_with_id(self@.videos, video_id@) == Some(video@),
                None => video_with_id(self@.videos, video_id@) is None,
            },
    {
        self.videos.get(video_id)
    }

    /// The known videos, in the order in which they came.
    pub fn videos(&self) -> (videos: Vec<Video>)
        requires
            self.wf(),
        ensures
            video_views(videos@) == self@.videos,
    {
        self.videos.to_vec()
    }

    /// The feed, in the order in which it is shown.
    pub fn feed_video_ids(&self) -> (r: &Vec<String>)
        ensures
            texts(r@) == self@.feed,
    {
        &self.feed_video_ids
    }

    /// The search results, in the order in which they are shown.
    pub fn search_video_ids(&self) -> (r: &Vec<String>)
        ensures
            texts(r@) == self@.search,
    {
        &self.search_result_ids
    }

    /// The watch-later list.
    pub fn watch_later(&self) -> (r: &IdSet)
        requires
            self.wf(),
        ensures
            r.wf(),
            r@ == self@.watch_later,
    {
        &self.watch_later
    }

    /// The videos with a finished download.
    pub fn downloaded_video_ids(&self) -> (r: &IdSet)
        requires
            self.wf(),
        ensures
            r.wf(),
            r@ == self@.downloaded,
    {
        &self.downloaded_video_ids
    }

    /// The videos with legacy downloads only.
    pub fn legacy_video_ids(&self) -> (r: &IdSet)
        requires
            self.wf(),
        ensures
            r.wf(),
            r@ == self@.legacy,
    {
        &self.legacy_video_ids
    }

    /// Puts a video on the watch-later list.
    pub(crate) fn list_for_later(&mut self, video_id: &str)
        requires
            old(self).wf(),
        ensures
            final(self).wf(),
            final(self)@ == (StateView {
                watch_later: old(self)@.watch_later.insert(video_id@),
                ..old(self)@
            }),
    {
        self.watch_later.insert(video_id);
    }

    /// Takes a video off the watch-later list; tells whether it was on it.
    pub(crate) fn unlist_for_later(&mut self, video_id: &str) -> (removed: bool)
        requires
            old(self).wf(),
        ensures
            final(self).wf(),
            removed == old(self)@.watch_later.contains(video_id@),
            final(self)@ == (StateView {
                watch_later: old(self)@.watch_later.remove(video_id@),
                ..old(self)@
            }),
    {
        self.watch_later.remove(video_id)
    }

    /// Notes a finished download.
    pub(crate) fn note_downloaded(&mut self, video_id: &str)
        requires
            old(self).wf(),
        ensures
            final(self).wf(),
            final(self)@ == (StateView {
                downloaded: old(self)@.downloaded.insert(video_id@),
                legacy: old(self)@.legacy.remove(video_id@),
                ..old(self)@
            }),
    {
        self.downloaded_video_ids.insert(video_id);
        self.legacy_video_ids.remove(video_id);
    }

    /// Notes that the downloads of a video are to go.
    pub(crate) fn forget_downloads(&mut self, video_id: &str)
        requires
            old(self).wf(),
        ensures
            final(self).wf(),
            final(self)@ == (StateView {
                downloaded: old(self)@.downloaded.remove(video_id@),
                legacy: old(self)@.legacy.remove(video_id@),
                ..old(self)@
            }),
    {
        self.downloaded_video_ids.remove(video_id);
        self.legacy_video_ids.remove(video_id);
    }

    /// Takes in a transcript: gives the change that is to be saved, whether or not there is
    /// the video, and reports if there is none.
    pub fn cache_video_transcript(&mut self, video_id: &str, transcript: String) -> (r: (
        SidecarSave,
        Result<(), CacheVideoError>,
    ))
        requires
            old(self).wf(),
        ensures
            final(self).wf(),
            r.0@ == (SaveView::Transcript { video_id: video_id@, text: transcript@ }),
            change_reported(old(self)@.videos, video_id@, r.1),
            final(self)@ == (StateView {
                videos: with_changed(
                    old(self)@.videos,
                    video_id@,
                    |video: VideoView| VideoView { transcript: Some(transcript@), ..video },
                ),
                ..old(self)@
            }),
    {
        let save = SidecarSave::Transcript {
            video_id: video_id.to_owned(),
            text: transcript.clone(),
        };
        if self.videos.set_transcript(video_id, Some(transcript)) {
            (save, Ok(()))
        } else {
            (save, Err(CacheVideoError::MissingVideo { video_id: video_id.to_owned() }))
        }
    }

    /// Takes in a summary: gives the change that is to be saved, whether or not there is the
    /// video, and reports if there is none.
    pub fn cache_video_ai_summary(&mut self, video_id: &str, ai_summary: String) -> (r: (
        SidecarSave,
        Result<(), CacheVideoError>,
    ))
        requires
            old(self).wf(),
        ensures
            final(self).wf(),
            r.0@ == (SaveView::Summary { video_id: video_id@, text: ai_summary@ }),
            change_reported(old(self)@.videos, video_id@, r.1),
            final(self)@ == (StateView {
                videos: with_changed(
                    old(self)@.videos,
                    video_id@,
                    |video: VideoView| VideoView { ai_summary: Some(ai_summary@), ..video },
                ),
                ..old(self)@
            }),
    {
        let save = SidecarSave::Summary {
            video_id: video_id.to_owned(),
            text: ai_summary.clone(),
        };
        if self.videos.set_ai_summary(video_id, Some(ai_summary)) {
            (save, Ok(()))
        } else {
            (save, Err(CacheVideoError::MissingVideo { video_id: video_id.to_owned() }))
        }
    }

    /// Marks a video as watched or not: gives the change that is to be saved, whether or not
    /// there is the video, and reports if there is none.
    pub fn set_video_watched(&mut self, video_id: &str, watched: bool) -> (r: (
        SidecarSave,
        Result<(), CacheVideoError>,
    ))
        requires
            old(self).wf(),
        ensures
            final(self).wf(),
            r.0@ == (SaveView::Watched { video_id: video_id@, watched }),
            change_reported(old(self)@.videos, video_id@, r.1),
            final(self)@ == (StateView {
                videos: with_changed(
                    old(self)@.videos,
                    video_id@,
                    |video: VideoView| VideoView { watched, ..video },
                ),
                ..old(self)@
            }),
    {
        let save = SidecarSave::Watched { video_id: video_id.to_owned(), watched };
        if self.videos.set_watched(video_id, watched) {
            (save, Ok(()))
        } else {
            (save, Err(CacheVideoError::MissingVideo { video_id: video_id.to_owned() }))
        }
    }

    /// The videos that are saved: those of the feed and of the watch-later list.
    pub fn persistable_videos(&self) -> (kept: Vec<Video>)
        requires
            self.wf(),
        ensures
            video_views(kept@) == persistable(self@.videos, self@.feed, self@.watch_later),
    {
        let ghost all = self@.videos;
        let mut kept: Vec<Video> = Vec::new();
        let n: usize = self.videos.len();
        let mut i: usize = 0;
        assert(video_views(kept@) =~= persistable(all.take(0), self@.feed, self@.watch_later));
        while i < n
            invariant
                i <= n,
                n == all.len(),
                all == self@.videos,
                self.wf(),
                video_views(kept@) == persistable(
                    all.take(i as int),
                    self@.feed,
                    self@.watch_later,
                ),
            decreases n - i,
        {
            let ghost before = video_views(kept@);
            assert(all.take(i + 1).drop_last() =~= all.take(i as int));
            if let Some(video) = self.videos.at(i) {
                let id = video.video_id.as_str();
                if position(&self.feed_video_ids, id).is_some() || self.watch_later.contains(id) {
                    let copy = video.clone();
                    kept.push(copy);
                    assert(video_views(kept@) =~= before.push(copy@));
                }
            }
            i += 1;
        }
        assert(all.take(all.len() as int) =~= all);
        kept
    }
}

/// A change reaches the video with the identifier and no other, and it is reported whether
/// there is one.
pub proof fn changes_reach_one_video(
    videos: Seq<VideoView>,
    id: Seq<char>,
    change: spec_fn(VideoView) -> VideoView,
    missing: String,
)
    requires
        ids_of(videos).no_duplicates(),
    ensures
        with_changed(videos, id, change).len() == videos.len(),
        forall|i: int|
            0 <= i < videos.len() ==> with_changed(videos, id, change)[i] == if (
            #[trigger] videos[i]).video_id == id {
                change(videos[i])
            } else {
                videos[i]
            },
        change_reported(videos, id, Ok(())) <==> ids_of(videos).contains(id),
        change_reported(videos, id, Err(CacheVideoError::MissingVideo { video_id: missing })) <==> (
        !ids_of(videos).contains(id) && missing@ == id),
{
    let ids = ids_of(videos);
    lemma_index_of(ids, id);
    assert forall|i: int| 0 <= i < videos.len() implies with_changed(videos, id, change)[i] == if (
    #[trigger] videos[i]).video_id == id {
        change(videos[i])
    } else {
        videos[i]
    } by {
        assert(ids[i] == videos[i].video_id);
        assert(ids.contains(ids[i]));
        if let Some(k) = index_of(ids, id) {
            if i != k {
                assert(ids[i] != ids[k]);
            }
        }
    }
}

/// The videos that a refresh preserves stay in their order: those of one part come before
/// those of the next, and a single video is preserved where it is on the watch-later list and
/// did not come in.
pub proof fn videos_are_preserved_in_order(
    first: Seq<VideoView>,
    second: Seq<VideoView>,
    video: VideoView,
    watch_later: Set<Seq<char>>,
    incoming: Seq<Seq<char>>,
)
    ensures
        preserved_videos(first + second, watch_later, incoming) == preserved_videos(
            first,
            watch_later,
            incoming,
        ) + preserved_videos(second, watch_later, incoming),
        watch_later.contains(video.video_id) && !incoming.contains(video.video_id)
            ==> preserved_videos(seq![video], watch_later, incoming) == seq![video],
        !watch_later.contains(video.video_id) || incoming.contains(video.video_id)
            ==> preserved_videos(seq![video], watch_later, incoming) == Seq::<VideoView>::empty(),
    decreases second.len(),
{
    let none = Seq::<VideoView>::empty();
    assert(seq![video].drop_last() =~= none);
    assert(preserved_videos(none, watch_later, incoming) =~= none);
    assert(none.push(video) =~= seq![video]);
    if second.len() == 0 {
        assert(first + second =~= first);
        assert(preserved_videos(first, watch_later, incoming) + none =~= preserved_videos(
            first,
            watch_later,
            incoming,
        ));
    } else {
        videos_are_preserved_in_order(first, second.drop_last(), video, watch_later, incoming);
        assert((first + second).drop_last() =~= first + second.drop_last());
        assert((first + second).last() == second.last());
        assert(preserved_videos(first + second, watch_later, incoming) =~= preserved_videos(
            first,
            watch_later,
            incoming,
        ) + preserved_videos(second, watch_later, incoming));
    }
}

/// The videos that are saved stay in their order: those of one part come before those of the
/// next, and a single video is saved where the feed or the watch-later list holds it.
pub proof fn videos_are_saved_in_order(
    first: Seq<VideoView>,
    second: Seq<VideoView>,
    video: VideoView,
    feed: Seq<Seq<char>>,
    watch_later: Set<Seq<char>>,
)
    ensures
        persistable(first + second, feed, watch_later) == persistable(first, feed, watch_later)
            + persistable(second, feed, watch_later),
        feed.contains(video.video_id) || watch_later.contains(video.video_id) ==> persistable(
            seq![video],
            feed,
            watch_later,
        ) == seq![video],
        !feed.contains(video.video_id) && !watch_later.contains(video.video_id) ==> persistable(
            seq![video],
            feed,
            watch_later,
        ) == Seq::<VideoView>::empty(),
    decreases second.len(),
{
    let none = Seq::<VideoView>::empty();
    assert(seq![video].drop_last() =~= none);
    assert(persistable(none, feed, watch_later) =~= none);
    assert(none.push(video) =~= seq![video]);
    if second.len() == 0 {
        assert(first + second =~= first);
        assert(persistable(first, feed, watch_later) + none =~= persistable(
            first,
            feed,
            watch_later,
        ));
    } else {
        videos_are_saved_in_order(first, second.drop_last(), video, feed, watch_later);
        assert((first + second).drop_last() =~= first + second.drop_last());
        assert((first + second).last() == second.last());
        assert(persistable(first + second, feed, watch_later) =~= persistable(
            first,
            feed,
            watch_later,
        ) + persistable(second, feed, watch_later));
    }
}

/// Search results are shown in the order in which they first came: what comes later stands
/// behind, and distinct results are shown as they are.
pub proof fn search_results_keep_their_order(first: Seq<Seq<char>>, second: Seq<Seq<char>>)
    ensures
        first_occurrences(first).is_prefix_of(first_occurrences(first + second)),
        (first + second).no_duplicates() ==> first_occurrences(first + second) == first + second,
    decreases first.len() + second.len(),
{
    let all = first + second;
    if second.len() == 0 {
        assert(all =~= first);
        if first.len() > 0 {
            search_results_keep_their_order(first.drop_last(), seq![first.last()].drop_last());
            assert(first.drop_last() + seq![first.last()].drop_last() =~= first.drop_last());
            if all.no_duplicates() {
                assert forall|i: int, j: int|
                    0 <= i < first.len() - 1 && 0 <= j < first.len() - 1 && i
                        != j implies first.drop_last()[i] != first.drop_last()[j] by {
                    assert(all[i] != all[j]);
                }
                if first.drop_last().contains(first.last()) {
                    let k = choose|k: int|
                        0 <= k < first.drop_last().len() && first.drop_last()[k] == first.last();
                    assert(all[k] != all[all.len() - 1]);
                }
                assert(first.drop_last().push(first.last()) =~= first);
            }
        } else {
            assert(first_occurrences(all) =~= all);
        }
    } else {
        let rest = second.drop_last();
        search_results_keep_their_order(first, rest);
        assert(all.drop_last() =~= first + rest);
        assert(all.last() == second.last());
        if all.no_duplicates() {
            assert forall|i: int, j: int|
                0 <= i < (first + rest).len() && 0 <= j < (first + rest).len() && i != j implies (
            first + rest)[i] != (first + rest)[j] by {
                assert(all[i] != all[j]);
            }
            if all.drop_last().contains(all.last()) {
                let k = choose|k: int|
                    0 <= k < all.drop_last().len() && all.drop_last()[k] == all.last();
                assert(all[k] != all[all.len() - 1]);
            }
            assert((first + rest).push(all.last()) =~= all);
        }
    }
}

proof fn lemma_appended(videos: Seq<VideoView>, others: Seq<VideoView>)
    requires
        ids_of(videos + others).no_duplicates(),
    ensures
        with_videos(videos, others) == videos + others,
    decreases others.len(),
{
    if others.len() == 0 {
        assert(videos + others =~= videos);
    } else {
        let rest = others.drop_last();
        let all = ids_of(videos + others);
        let before = ids_of(videos + rest);
        assert forall|i: int, j: int|
            0 <= i < before.len() && 0 <= j < before.len() && i != j implies before[i]
            != before[j] by {
            assert(all[i] == before[i] && all[j] == before[j]);
        }
        lemma_appended(videos, rest);
        lemma_index_of(before, others.last().video_id);
        if let Some(k) = index_of(before, others.last().video_id) {
            assert(all[k] == before[k]);
            assert(all[all.len() - 1] == others.last().video_id);
        }
        assert((videos + rest).push(others.last()) =~= videos + others);
    }
}

/// After a refresh the videos that came in, where each came once, stand first and in their
/// order, and behind them the preserved ones. The search results and the legacy downloads stay
/// as they were.
pub proof fn refreshed_videos_come_first(state: StateView, incoming: Seq<VideoView>)
    requires
        ids_of(state.videos).no_duplicates(),
        ids_of(incoming).no_duplicates(),
    ensures
        refreshed(state, incoming).videos == incoming + preserved_videos(
            state.videos,
            state.watch_later,
            ids_of(incoming),
        ),
        refreshed(state, incoming).search == state.search,
        refreshed(state, incoming).legacy == state.legacy,
{
    let none = Seq::<VideoView>::empty();
    let kept = preserved_videos(state.videos, state.watch_later, ids_of(incoming));
    assert(none + incoming =~= incoming);
    lemma_appended(none, incoming);
    lemma_preserved(state.videos, state.watch_later, ids_of(incoming));
    let all = ids_of(incoming + kept);
    assert forall|i: int, j: int| 0 <= i < j < all.len() implies all[i] != all[j] by {
        if j < incoming.len() {
            assert(ids_of(incoming)[i] != ids_of(incoming)[j]);
        } else if i >= incoming.len() {
            let n = incoming.len() as int;
            assert(ids_of(kept)[i - n] != ids_of(kept)[j - n]);
        } else {
            let n = incoming.len() as int;
            assert(kept.contains(kept[j - n]));
            assert(ids_of(incoming)[i] == all[i]);
            assert(ids_of(incoming).contains(all[i]));
        }
    }
    lemma_appended(incoming, kept);
}

/// After a search a result is known as it came, where each came once, and all else is known as
/// it was. The legacy downloads stay as they were.
pub proof fn search_results_are_known_as_they_came(
    state: StateView,
    results: Seq<VideoView>,
    id: Seq<char>,
)
    requires
        ids_of(state.videos).no_duplicates(),
        ids_of(results).no_duplicates(),
    ensures
        searched(state, results).legacy == state.legacy,
        searched(state, results).search == ids_of(results),
        video_with_id(searched(state, results).videos, id) == if ids_of(results).contains(id) {
            video_with_id(results, id)
        } else {
            video_with_id(state.videos, id)
        },
{
    lemma_with_videos(state.videos, results);
    lemma_with_distinct_videos(state.videos, results);
    let none = Seq::<Seq<char>>::empty();
    assert(ids_of(results) + none =~= ids_of(results));
    search_results_keep_their_order(ids_of(results), none);
}

} // verus!
