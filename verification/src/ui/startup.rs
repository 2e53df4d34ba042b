//! What the window opens with.

use crate::data::{ids_of, listed_ids, video_views, Video, VideoView};
use crate::ids::{position, IdSet};
use crate::text::texts;
use crate::ui::grid::{items_are_kept_in_order, kept_in};
use vstd::prelude::*;

verus! {

/// What became of a file that was to be loaded.
#[derive(Debug)]
pub enum Saved<T> {
    /// There is no such file.
    Missing,
    Found(T),
    /// There is the file, but it cannot be read.
    Damaged,
}

/// What was loaded.
pub struct LoadedState {
    pub watch_later: IdSet,
    pub videos: Vec<Video>,
    pub feed_video_ids: Option<Vec<String>>,
    /// Whether no file was damaged.
    pub healthy: bool,
}

/// The set of a list that was to be loaded.
pub open spec fn saved_set(saved: Saved<Vec<String>>) -> Set<Seq<char>> {
    match saved {
        Saved::Found(ids) => texts(ids@).to_set(),
        _ => Set::empty(),
    }
}

/// The videos that were to be loaded.
pub open spec fn saved_videos(saved: Saved<Vec<Video>>) -> Seq<VideoView> {
    match saved {
        Saved::Found(videos) => video_views(videos@),
        _ => Seq::empty(),
    }
}

/// The list that was to be loaded, if it was.
pub open spec fn saved_list(saved: Saved<Vec<String>>) -> Option<Seq<Seq<char>>> {
    match saved {
        Saved::Found(ids) => Some(texts(ids@)),
        _ => None,
    }
}

pub open spec fn opt_texts(ids: Option<Vec<String>>) -> Option<Seq<Seq<char>>> {
    match ids {
        Some(ids) => Some(texts(ids@)),
        None => None,
    }
}

/// Takes in what was loaded. A damaged file counts as one that holds nothing, but it is
/// remembered that it is not so.
pub fn load_state(
    watch_later: Saved<Vec<String>>,
    videos: Saved<Vec<Video>>,
    feed_video_ids: Saved<Vec<String>>,
) -> (r: LoadedState)
    ensures
        r.watch_later.wf(),
        r.watch_later@ == saved_set(watch_later),
        video_views(r.videos@) == saved_videos(videos),
        opt_texts(r.feed_video_ids) == saved_list(feed_video_ids),
        r.healthy == !(watch_later is Damaged || videos is Damaged || feed_video_ids is Damaged),
{
    let mut healthy = true;
    let watch_later = match watch_later {
        Saved::Found(ids) => IdSet::from_ids(&ids),
        Saved::Missing => IdSet::new(),
        Saved::Damaged => {
            healthy = false;
            IdSet::new()
        },
    };
    let videos = match videos {
        Saved::Found(videos) => videos,
        Saved::Missing => Vec::new(),
        Saved::Damaged => {
            healthy = false;
            Vec::new()
        },
    };
    let feed_video_ids = match feed_video_ids {
        Saved::Found(ids) => Some(ids),
        Saved::Missing => None,
        Saved::Damaged => {
            healthy = false;
            None
        },
    };
    LoadedState { watch_later, videos, feed_video_ids, healthy }
}

/// What the window opens with, and what is to be done besides.
pub struct Startup {
    pub videos: Vec<Video>,
    pub feed_video_ids: Vec<String>,
    pub watch_later: IdSet,
    /// Whether to save the videos.
    pub saves_videos: bool,
    /// Whether to save the feed.
    pub saves_feed_video_ids: bool,
    /// Whether to clean up the cache.
    pub cleans_up: bool,
}

/// The feed that the window opens with: the one that was saved, or all videos that were, and
/// of these only those that there is a video of.
pub open spec fn opening_feed(saved: Option<Seq<Seq<char>>>, videos: Seq<VideoView>) -> Seq<
    Seq<char>,
> {
    kept_in(
        match saved {
            Some(ids) => ids,
            None => ids_of(videos),
        },
        ids_of(videos).to_set(),
    )
}

impl LoadedState {
    /// The videos that were loaded.
    pub fn known_video_ids(&self) -> (ids: IdSet)
        ensures
            ids.wf(),
            ids@ == ids_of(video_views(self.videos@)).to_set(),
    {
        let list = listed_ids(&self.videos);
        IdSet::from_ids(&list)
    }

    /// What the window opens with, given the watch-later videos that were missing and could be
    /// rebuilt. Where a file was damaged, neither is the cache cleaned up, which would delete
    /// what only seems unused, nor is the feed saved anew.
    pub fn open(self, repaired: Vec<Video>) -> (r: Startup)
        requires
            self.watch_later.wf(),
        ensures
            r.watch_later.wf(),
            r.watch_later@ == self.watch_later@,
            video_views(r.videos@) == video_views(self.videos@) + video_views(repaired@),
            texts(r.feed_video_ids@) == opening_feed(
                opt_texts(self.feed_video_ids),
                video_views(self.videos@),
            ),
            r.saves_videos == (repaired@.len() > 0),
            r.saves_feed_video_ids == (self.healthy && self.feed_video_ids is None),
            r.cleans_up == self.healthy,
    {
        let ghost found = video_views(self.videos@);
        let saves_feed_video_ids = self.healthy && self.feed_video_ids.is_none();
        let known = listed_ids(&self.videos);
        let listed = match self.feed_video_ids {
            Some(ids) => ids,
            None => listed_ids(&self.videos),
        };
        let feed_video_ids = known_only(listed, &known);
        let saves_videos = repaired.len() > 0;
        let mut videos = self.videos;
        let mut repaired = repaired;
        let ghost rebuilt = video_views(repaired@);
        videos.append(&mut repaired);
        assert(video_views(videos@) =~= found + rebuilt);
        Startup {
            videos,
            feed_video_ids,
            watch_later: self.watch_later,
            saves_videos,
            saves_feed_video_ids,
            cleans_up: self.healthy,
        }
    }
}

fn known_only(ids: Vec<String>, known: &Vec<String>) -> (r: Vec<String>)
    ensures
        texts(r@) == kept_in(texts(ids@), texts(known@).to_set()),
{
    let ghost all = texts(ids@);
    let ghost set = texts(known@).to_set();
    let mut r: Vec<String> = Vec::new();
    let mut i: usize = 0;
    assert(texts(r@) =~= kept_in(all.take(0), set));
    while i < ids.len()
        invariant
            i <= ids.len(),
            all == texts(ids@),
            set == texts(known@).to_set(),
            texts(r@) == kept_in(all.take(i as int), set),
        decreases ids.len() - i,
    {
        let ghost before = texts(r@);
        assert(all.take(i + 1).drop_last() =~= all.take(i as int));
        assert(all.take(i + 1).last() == ids@[i as int]@);
        match position(known, ids[i].as_str()) {
            Some(k) => {
                assert(texts(known@)[k as int] == ids@[i as int]@);
                assert(texts(known@).contains(ids@[i as int]@));
                let copy = ids[i].clone();
                r.push(copy);
                assert(texts(r@) =~= before.push(copy@));
            },
            None => {
                assert(!set.contains(ids@[i as int]@));
            },
        }
        i += 1;
    }
    assert(all.take(all.len() as int) =~= all);
    r
}

/// The feed that the window opens with names only videos that were loaded.
pub proof fn the_opening_feed_is_known(
    saved: Option<Seq<Seq<char>>>,
    videos: Seq<VideoView>,
    id: Seq<char>,
)
    requires
        opening_feed(saved, videos).contains(id),
    ensures
        ids_of(videos).contains(id),
{
    let listed = match saved {
        Some(ids) => ids,
        None => ids_of(videos),
    };
    crate::ui::grid::lemma_kept_contains(listed, ids_of(videos).to_set());
}

/// The feed that the window opens with has the order of the one that was saved, without what
/// there is no video of; without a saved one it holds all videos in their order.
pub proof fn the_opening_feed_keeps_its_order(
    first: Seq<Seq<char>>,
    second: Seq<Seq<char>>,
    id: Seq<char>,
    videos: Seq<VideoView>,
)
    ensures
        opening_feed(Some(first + second), videos) == opening_feed(Some(first), videos)
            + opening_feed(Some(second), videos),
        ids_of(videos).contains(id) ==> opening_feed(Some(seq![id]), videos) == seq![id],
        !ids_of(videos).contains(id) ==> opening_feed(Some(seq![id]), videos) == Seq::<
            Seq<char>,
        >::empty(),
        opening_feed(None, videos) == ids_of(videos),
{
    let known = ids_of(videos).to_set();
    items_are_kept_in_order(first, second, id, known);
    lemma_known_kept(ids_of(videos), known);
}

proof fn lemma_known_kept(ids: Seq<Seq<char>>, known: Set<Seq<char>>)
    requires
        forall|i: int| 0 <= i < ids.len() ==> known.contains(#[trigger] ids[i]),
    ensures
        kept_in(ids, known) == ids,
    decreases ids.len(),
{
    let none = Seq::<Seq<char>>::empty();
    if ids.len() == 0 {
        assert(ids =~= none);
        assert(kept_in(ids, known) =~= none);
    } else {
        let rest = ids.drop_last();
        assert forall|i: int| 0 <= i < rest.len() implies known.contains(#[trigger] rest[i]) by {
            assert(rest[i] == ids[i]);
        }
        lemma_known_kept(rest, known);
        assert(ids[ids.len() - 1] == ids.last());
        items_are_kept_in_order(rest, seq![ids.last()], ids.last(), known);
        assert(rest + seq![ids.last()] =~= ids);
    }
}

/// What was found in a file is taken as it is, and a file that is missing or damaged counts as
/// an empty one; only where a list was found is there one.
pub proof fn files_are_taken_as_they_are(ids: Vec<String>, videos: Vec<Video>, id: Seq<char>)
    ensures
        saved_set(Saved::Found(ids)).contains(id) <==> texts(ids@).contains(id),
        !saved_set(Saved::Missing).contains(id) && !saved_set(Saved::Damaged).contains(id),
        saved_videos(Saved::Found(videos)) == video_views(videos@),
        saved_videos(Saved::Missing).len() == 0 && saved_videos(Saved::Damaged).len() == 0,
        saved_list(Saved::Found(ids)) == Some(texts(ids@)),
        saved_list(Saved::Missing) is None && saved_list(Saved::Damaged) is None,
{
}

} // verus!
