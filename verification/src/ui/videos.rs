//! Videos by their identifiers, in the order in which they came.

use crate::data::{ids_of, video_views, Video, VideoView};
use indexmap::IndexMap;
use vstd::prelude::*;

verus! {

/// A map that keeps the order of its entries.
#[verifier::external_type_specification]
#[verifier::external_body]
#[verifier::reject_recursive_types(K)]
#[verifier::reject_recursive_types(V)]
#[verifier::reject_recursive_types(S)]
pub struct ExIndexMap<K, V, S>(indexmap::IndexMap<K, V, S>);

/// The entries of a map, in order.
pub uninterp spec fn map_entries(map: IndexMap<String, Video>) -> Seq<(Seq<char>, VideoView)>;

/// Where an identifier first stands.
pub open spec fn index_of(ids: Seq<Seq<char>>, id: Seq<char>) -> Option<int>
    decreases ids.len(),
{
    if ids.len() == 0 {
        None
    } else if ids[0] == id {
        Some(0)
    } else {
        match index_of(ids.drop_first(), id) {
            Some(i) => Some(i + 1),
            None => None,
        }
    }
}

pub proof fn lemma_index_of(ids: Seq<Seq<char>>, id: Seq<char>)
    ensures
        match index_of(ids, id) {
            Some(i) => 0 <= i < ids.len() && ids[i] == id && forall|j: int|
                0 <= j < i ==> ids[j] != id,
            None => !ids.contains(id),
        },
    decreases ids.len(),
{
    if ids.len() > 0 && ids[0] != id {
        let rest = ids.drop_first();
        lemma_index_of(rest, id);
        match index_of(rest, id) {
            Some(i) => {
                assert forall|j: int| 0 <= j < i + 1 implies ids[j] != id by {
                    if j > 0 {
                        assert(rest[j - 1] == ids[j]);
                    }
                }
            },
            None => {
                assert forall|j: int| 0 <= j < ids.len() implies ids[j] != id by {
                    if j > 0 {
                        assert(rest[j - 1] == ids[j]);
                    }
                }
            },
        }
    }
}

/// The keys of entries.
pub open spec fn keys_of(entries: Seq<(Seq<char>, VideoView)>) -> Seq<Seq<char>> {
    entries.map_values(|entry: (Seq<char>, VideoView)| entry.0)
}

/// The entries after an insertion: in the place of the entry with the key, or at the end.
pub open spec fn with_entry(
    entries: Seq<(Seq<char>, VideoView)>,
    key: Seq<char>,
    video: VideoView,
) -> Seq<(Seq<char>, VideoView)> {
    match index_of(keys_of(entries), key) {
        Some(i) => entries.update(i, (key, video)),
        None => entries.push((key, video)),
    }
}

/// Calls `indexmap::IndexMap::new`: a map without entries.
#[verifier::external_body]
fn new_map() -> (map: IndexMap<String, Video>)
    ensures
        map_entries(map) == Seq::<(Seq<char>, VideoView)>::empty(),
{
    IndexMap::new()
}

/// Calls `indexmap::IndexMap::insert`: an entry with the key keeps its place and gets the
/// value; without one, the entry is put at the end.
#[verifier::external_body]
fn insert_entry(map: &mut IndexMap<String, Video>, key: String, video: Video)
    ensures
        map_entries(*final(map)) == with_entry(map_entries(*old(map)), key@, video@),
{
    map.insert(key, video);
}

/// Calls `indexmap::IndexMap::get`: the value of the entry with the key.
#[verifier::external_body]
fn get_entry<'a>(map: &'a IndexMap<String, Video>, key: &str) -> (r: Option<&'a Video>)
    ensures
        match r {
            Some(video) => index_of(keys_of(map_entries(*map)), key@) matches Some(i)
                && video@ == map_entries(*map)[i].1,
            None => index_of(keys_of(map_entries(*map)), key@) is None,
        },
{
    map.get(key)
}

/// Calls `indexmap::IndexMap::get_mut`: the value of the entry with the key, to be changed in
/// its place.
#[verifier::external_body]
fn get_entry_mut<'a>(map: &'a mut IndexMap<String, Video>, key: &str) -> (r: Option<&'a mut Video>)
    ensures
        match r {
            Some(video) => index_of(keys_of(map_entries(*old(map))), key@) matches Some(i)
                && video@ == map_entries(*old(map))[i].1 && map_entries(*final(map)) == map_entries(
                *old(map),
            ).update(i, (key@, final(video)@)),
            None => index_of(keys_of(map_entries(*old(map))), key@) is None && map_entries(
                *final(map),
            ) == map_entries(*old(map)),
        },
{
    map.get_mut(key)
}

/// Calls `indexmap::IndexMap::get_index`: the value of the entry at a place in the order.
#[verifier::external_body]
fn entry_at<'a>(map: &'a IndexMap<String, Video>, index: usize) -> (r: Option<&'a Video>)
    ensures
        match r {
            Some(video) => index < map_entries(*map).len() && video@ == map_entries(
                *map,
            )[index as int].1,
            None => index >= map_entries(*map).len(),
        },
{
    map.get_index(index).map(|entry| entry.1)
}

/// Calls `indexmap::IndexMap::len`: the number of entries.
#[verifier::external_body]
fn entry_count(map: &IndexMap<String, Video>) -> (n: usize)
    ensures
        n == map_entries(*map).len(),
{
    map.len()
}

/// Videos, each under its identifier, in the order in which they came.
pub struct Videos {
    map: IndexMap<String, Video>,
}

/// The entries that videos make, each under its identifier.
pub open spec fn keyed(videos: Seq<VideoView>) -> Seq<(Seq<char>, VideoView)> {
    videos.map_values(|video: VideoView| (video.video_id, video))
}

impl View for Videos {
    type V = Seq<VideoView>;

    closed spec fn view(&self) -> Seq<VideoView> {
        map_entries(self.map).map_values(|entry: (Seq<char>, VideoView)| entry.1)
    }
}

/// Videos after one has come: in the place of the one with its identifier, or at the end.
pub open spec fn with_video(videos: Seq<VideoView>, video: VideoView) -> Seq<VideoView> {
    match index_of(ids_of(videos), video.video_id) {
        Some(i) => videos.update(i, video),
        None => videos.push(video),
    }
}

/// Videos after others have come, one after another.
pub open spec fn with_videos(videos: Seq<VideoView>, others: Seq<VideoView>) -> Seq<VideoView>
    decreases others.len(),
{
    if others.len() == 0 {
        videos
    } else {
        with_video(with_videos(videos, others.drop_last()), others.last())
    }
}

/// The video with an identifier.
pub open spec fn video_with_id(videos: Seq<VideoView>, id: Seq<char>) -> Option<VideoView> {
    match index_of(ids_of(videos), id) {
        Some(i) => Some(videos[i]),
        None => None,
    }
}

proof fn lemma_keyed_entry(videos: Seq<VideoView>, video: VideoView)
    ensures
        keys_of(keyed(videos)) == ids_of(videos),
        with_entry(keyed(videos), video.video_id, video) == keyed(with_video(videos, video)),
{
    assert(keys_of(keyed(videos)) =~= ids_of(videos));
    lemma_index_of(ids_of(videos), video.video_id);
    assert(with_entry(keyed(videos), video.video_id, video) =~= keyed(with_video(videos, video)));
}

/// No identifier occurs twice after a video has come, if none did before.
pub proof fn lemma_with_video_distinct(videos: Seq<VideoView>, video: VideoView)
    requires
        ids_of(videos).no_duplicates(),
    ensures
        ids_of(with_video(videos, video)).no_duplicates(),
        video_with_id(with_video(videos, video), video.video_id) == Some(video),
        forall|id: Seq<char>|
            id != video.video_id ==> #[trigger] video_with_id(with_video(videos, video), id)
                == video_with_id(videos, id),
{
    let ids = ids_of(videos);
    let after = ids_of(with_video(videos, video));
    lemma_index_of(ids, video.video_id);
    match index_of(ids, video.video_id) {
        Some(i) => {
            assert(after =~= ids);
        },
        None => {
            assert(after =~= ids.push(video.video_id));
        },
    }
    lemma_index_of(after, video.video_id);
    match index_of(ids, video.video_id) {
        Some(i) => {
            assert(after[i] == video.video_id);
        },
        None => {
            assert(after[ids.len() as int] == video.video_id);
        },
    }
    assert forall|id: Seq<char>| id != video.video_id implies #[trigger] video_with_id(
        with_video(videos, video),
        id,
    ) == video_with_id(videos, id) by {
        lemma_index_of(after, id);
        lemma_index_of(ids, id);
        match index_of(after, id) {
            Some(i) => {
                assert(after[i] == id);
                if index_of(ids, id) is None {
                    if i < ids.len() {
                        assert(ids[i] == id);
                        assert(ids.contains(id));
                    }
                }
            },
            None => {
                if let Some(i) = index_of(ids, id) {
                    assert(after[i] == id);
                    assert(after.contains(id));
                }
            },
        }
    }
}

impl Videos {
    /// Every video stands under its identifier, and no identifier occurs twice.
    pub closed spec fn wf(&self) -> bool {
        &&& map_entries(self.map) == keyed(self@)
        &&& ids_of(self@).no_duplicates()
    }

    /// No videos.
    pub fn new() -> (r: Self)
        ensures
            r.wf(),
            r@ == Seq::<VideoView>::empty(),
    {
        let r = Videos { map: new_map() };
        assert(r@ =~= Seq::<VideoView>::empty());
        assert(map_entries(r.map) =~= keyed(r@));
        r
    }

    /// The identifiers of the videos are distinct.
    pub proof fn lemma_distinct(&self)
        requires
            self.wf(),
        ensures
            ids_of(self@).no_duplicates(),
    {
    }

    /// Takes in a video.
    pub fn insert(&mut self, video: Video)
        requires
            old(self).wf(),
        ensures
            final(self).wf(),
            final(self)@ == with_video(old(self)@, video@),
    {
        let ghost before = self@;
        let ghost view = video@;
        let key = video.video_id.clone();
        insert_entry(&mut self.map, key, video);
        proof {
            lemma_keyed_entry(before, view);
            lemma_with_video_distinct(before, view);
            assert(self@ =~= with_video(before, view));
        }
    }

    /// Takes in videos, one after another.
    pub fn extend(&mut self, videos: Vec<Video>)
        requires
            old(self).wf(),
        ensures
            final(self).wf(),
            final(self)@ == with_videos(old(self)@, video_views(videos@)),
    {
        let ghost all = videos@;
        let ghost views = video_views(videos@);
        let ghost before = self@;
        let mut videos = videos;
        let ghost mut done: int = 0;
        assert(views.take(0) =~= Seq::<VideoView>::empty());
        while videos.len() > 0
            invariant
                0 <= done <= all.len(),
                views == video_views(all),
                videos@ == all.skip(done),
                self.wf(),
                self@ == with_videos(before, views.take(done)),
            decreases videos.len(),
        {
            let video = videos.remove(0);
            proof {
                assert(video == all[done]);
                assert(videos@ =~= all.skip(done + 1));
                assert(views.take(done + 1).drop_last() =~= views.take(done));
                assert(views.take(done + 1).last() == video@);
            }
            self.insert(video);
            proof {
                done = done + 1;
            }
        }
        assert(views.take(done) =~= views);
    }

    /// The number of videos.
    pub fn len(&self) -> (n: usize)
        ensures
            n == self@.len(),
    {
        entry_count(&self.map)
    }

    /// The video with an identifier.
    pub fn get(&self, id: &str) -> (r: Option<&Video>)
        requires
            self.wf(),
        ensures
            match r {
                Some(video) => video_with_id(self@, id@) == Some(video@),
                None => video_with_id(self@, id@) is None,
            },
    {
        proof {
            assert(keys_of(map_entries(self.map)) =~= ids_of(self@));
            lemma_index_of(ids_of(self@), id@);
        }
        get_entry(&self.map, id)
    }

    /// The video at a place in the order.
    pub fn at(&self, index: usize) -> (r: Option<&Video>)
        requires
            self.wf(),
        ensures
            match r {
                Some(video) => index < self@.len() && video@ == self@[index as int],
                None => index >= self@.len(),
            },
    {
        entry_at(&self.map, index)
    }

    /// Replaces the transcript of a video; tells whether there is such a video.
    pub fn set_transcript(&mut self, id: &str, transcript: Option<String>) -> (found: bool)
        requires
            old(self).wf(),
        ensures
            final(self).wf(),
            found == (index_of(ids_of(old(self)@), id@) is Some),
            final(self)@ == match index_of(ids_of(old(self)@), id@) {
                Some(i) => old(self)@.update(
                    i,
                    VideoView {
                        transcript: crate::text::opt_text(transcript),
                        ..old(self)@[i]
                    },
                ),
                None => old(self)@,
            },
    {
        proof {
            assert(keys_of(map_entries(self.map)) =~= ids_of(self@));
            lemma_index_of(ids_of(self@), id@);
        }
        let ghost before = self@;
        let found = match get_entry_mut(&mut self.map, id) {
            Some(video) => {
                video.set_transcript(transcript);
                true
            },
            None => false,
        };
        proof {
            if let Some(i) = index_of(ids_of(before), id@) {
                let after = before.update(
                    i,
                    VideoView {
                        transcript: crate::text::opt_text(transcript),
                        ..before[i]
                    },
                );
                assert(self@ =~= after);
                assert(map_entries(self.map) =~= keyed(after));
                assert(ids_of(after) =~= ids_of(before));
            }
        }
        found
    }

    /// Replaces the summary of a video; tells whether there is such a video.
    pub fn set_ai_summary(&mut self, id: &str, ai_summary: Option<String>) -> (found: bool)
        requires
            old(self).wf(),
        ensures
            final(self).wf(),
            found == (index_of(ids_of(old(self)@), id@) is Some),
            final(self)@ == match index_of(ids_of(old(self)@), id@) {
                Some(i) => old(self)@.update(
                    i,
                    VideoView {
                        ai_summary: crate::text::opt_text(ai_summary),
                        ..old(self)@[i]
                    },
                ),
                None => old(self)@,
            },
    {
        proof {
            assert(keys_of(map_entries(self.map)) =~= ids_of(self@));
            lemma_index_of(ids_of(self@), id@);
        }
        let ghost before = self@;
        let found = match get_entry_mut(&mut self.map, id) {
            Some(video) => {
                video.set_ai_summary(ai_summary);
                true
            },
            None => false,
        };
        proof {
            if let Some(i) = index_of(ids_of(before), id@) {
                let after = before.update(
                    i,
                    VideoView {
                        ai_summary: crate::text::opt_text(ai_summary),
                        ..before[i]
                    },
                );
                assert(self@ =~= after);
                assert(map_entries(self.map) =~= keyed(after));
                assert(ids_of(after) =~= ids_of(before));
            }
        }
        found
    }

    /// Sets the watched mark of a video; tells whether there is such a video.
    pub fn set_watched(&mut self, id: &str, watched: bool) -> (found: bool)
        requires
            old(self).wf(),
        ensures
            final(self).wf(),
            found == (index_of(ids_of(old(self)@), id@) is Some),
            final(self)@ == match index_of(ids_of(old(self)@), id@) {
                Some(i) => old(self)@.update(i, VideoView { watched, ..old(self)@[i] }),
                None => old(self)@,
            },
    {
        proof {
            assert(keys_of(map_entries(self.map)) =~= ids_of(self@));
            lemma_index_of(ids_of(self@), id@);
        }
        let ghost before = self@;
        let found = match get_entry_mut(&mut self.map, id) {
            Some(video) => {
                video.set_watched(watched);
                true
            },
            None => false,
        };
        proof {
            if let Some(i) = index_of(ids_of(before), id@) {
                let after = before.update(i, VideoView { watched, ..before[i] });
                assert(self@ =~= after);
                assert(map_entries(self.map) =~= keyed(after));
                assert(ids_of(after) =~= ids_of(before));
            }
        }
        found
    }

    /// The videos, in order.
    pub fn to_vec(&self) -> (videos: Vec<Video>)
        requires
            self.wf(),
        ensures
            video_views(videos@) == self@,
    {
        let mut videos: Vec<Video> = Vec::new();
        let n: usize = self.len();
        let mut i: usize = 0;
        assert(video_views(videos@) =~= self@.take(0));
        while i < n
            invariant
                self.wf(),
                i <= n,
                n == self@.len(),
                video_views(videos@) == self@.take(i as int),
            decreases n - i,
        {
            if let Some(video) = self.at(i) {
                let ghost before = video_views(videos@);
                let copy = video.clone();
                videos.push(copy);
                assert(video_views(videos@) =~= before.push(self@[i as int]));
                assert(self@.take(i + 1) =~= before.push(self@[i as int]));
            }
            i += 1;
        }
        assert(self@.take(self@.len() as int) =~= self@);
        videos
    }
}

/// The last of the videos with an identifier.
pub open spec fn last_with_id(videos: Seq<VideoView>, id: Seq<char>) -> Option<VideoView>
    decreases videos.len(),
{
    if videos.len() == 0 {
        None
    } else if videos.last().video_id == id {
        Some(videos.last())
    } else {
        last_with_id(videos.drop_last(), id)
    }
}

/// A video with the texts that it lacks and that a cached one has.
pub open spec fn completed(video: VideoView, cached: Option<VideoView>) -> VideoView {
    match cached {
        Some(cached) => VideoView {
            transcript: if video.transcript is None {
                cached.transcript
            } else {
                video.transcript
            },
            ai_summary: if video.ai_summary is None {
                cached.ai_summary
            } else {
                video.ai_summary
            },
            ..video
        },
        None => video,
    }
}

/// Videos, each with the texts that it lacks and that the cached video with its identifier has.
pub open spec fn all_completed(videos: Seq<VideoView>, cached: Seq<VideoView>) -> Seq<VideoView> {
    videos.map_values(|video: VideoView| completed(video, last_with_id(cached, video.video_id)))
}

/// Gives each video the texts that it lacks and that the cached video with its identifier has.
pub fn merge_cached_video_fields(videos: &mut Vec<Video>, cached_videos: &Vec<Video>)
    ensures
        video_views(final(videos)@) == all_completed(
            video_views(old(videos)@),
            video_views(cached_videos@),
        ),
{
    let ghost all = video_views(videos@);
    let ghost cached = video_views(cached_videos@);
    let mut merged: Vec<Video> = Vec::new();
    let mut i: usize = 0;
    while i < videos.len()
        invariant
            i <= videos.len(),
            all == video_views(videos@),
            cached == video_views(cached_videos@),
            merged.len() == i,
            forall|k: int|
                0 <= k < i ==> (#[trigger] merged@[k])@ == completed(
                    all[k],
                    last_with_id(cached, all[k].video_id),
                ),
        decreases videos.len() - i,
    {
        let mut video = videos[i].clone();
        assert(video@ == all[i as int]);
        if let Some(k) = find_last(cached_videos, videos[i].video_id.as_str()) {
            if video.transcript.is_none() {
                video.transcript = cached_videos[k].transcript.clone();
            }
            if video.ai_summary.is_none() {
                video.ai_summary = cached_videos[k].ai_summary.clone();
            }
        }
        merged.push(video);
        i += 1;
    }
    *videos = merged;
    assert(video_views(videos@) =~= all_completed(all, cached));
}

fn find_last(videos: &Vec<Video>, id: &str) -> (r: Option<usize>)
    ensures
        match r {
            Some(k) => k < videos.len() && last_with_id(video_views(videos@), id@) == Some(
                videos@[k as int]@,
            ),
            None => last_with_id(video_views(videos@), id@) is None,
        },
{
    let ghost all = video_views(videos@);
    let mut end: usize = videos.len();
    assert(all.take(end as int) =~= all);
    while end > 0
        invariant
            end <= videos.len(),
            all == video_views(videos@),
            last_with_id(all, id@) == last_with_id(all.take(end as int), id@),
        decreases end,
    {
        assert(all.take(end as int).drop_last() =~= all.take(end - 1));
        assert(all.take(end as int).last() == videos@[end - 1]@);
        if crate::text::same(videos[end - 1].video_id.as_str(), id) {
            return Some(end - 1);
        }
        end -= 1;
    }
    None
}

/// A video that comes stands in the place of the one with its identifier, and behind all
/// others where there is none. The others stay as they are, where they are.
pub proof fn videos_keep_their_places(videos: Seq<VideoView>, video: VideoView)
    requires
        ids_of(videos).no_duplicates(),
    ensures
        !ids_of(videos).contains(video.video_id) ==> with_video(videos, video) == videos + seq![
            video,
        ],
        ids_of(videos).contains(video.video_id) ==> ids_of(with_video(videos, video)) == ids_of(
            videos,
        ),
        forall|i: int|
            0 <= i < videos.len() ==> with_video(videos, video)[i] == if (
            #[trigger] videos[i]).video_id == video.video_id {
                video
            } else {
                videos[i]
            },
{
    let ids = ids_of(videos);
    lemma_index_of(ids, video.video_id);
    let after = with_video(videos, video);
    match index_of(ids, video.video_id) {
        Some(k) => {
            assert(ids_of(after) =~= ids);
            assert forall|i: int| 0 <= i < videos.len() implies after[i] == if (
            #[trigger] videos[i]).video_id == video.video_id {
                video
            } else {
                videos[i]
            } by {
                assert(ids[i] == videos[i].video_id);
                if i != k {
                    assert(ids[i] != ids[k]);
                }
            }
        },
        None => {
            assert(after =~= videos + seq![video]);
            assert forall|i: int| 0 <= i < videos.len() implies after[i] == if (
            #[trigger] videos[i]).video_id == video.video_id {
                video
            } else {
                videos[i]
            } by {
                assert(ids[i] == videos[i].video_id);
                assert(ids.contains(ids[i]));
            }
        },
    }
}

/// Videos that come one after another all come, in their order.
pub proof fn videos_come_one_after_another(
    videos: Seq<VideoView>,
    first: Seq<VideoView>,
    second: Seq<VideoView>,
    video: VideoView,
)
    ensures
        with_videos(videos, first + second) == with_videos(with_videos(videos, first), second),
        with_videos(videos, seq![video]) == with_video(videos, video),
        with_videos(videos, Seq::empty()) == videos,
    decreases second.len(),
{
    let none = Seq::<VideoView>::empty();
    assert(seq![video].drop_last() =~= none);
    assert(with_videos(videos, none) == videos);
    if second.len() == 0 {
        assert(first + second =~= first);
    } else {
        videos_come_one_after_another(videos, first, second.drop_last(), video);
        assert((first + second).drop_last() =~= first + second.drop_last());
        assert((first + second).last() == second.last());
    }
}

/// A lookup finds a video exactly where one with the identifier is there, and finds the one.
pub proof fn lookups_go_by_the_identifier(videos: Seq<VideoView>, id: Seq<char>)
    ensures
        match video_with_id(videos, id) {
            Some(video) => video.video_id == id && videos.contains(video),
            None => forall|i: int| 0 <= i < videos.len() ==> (#[trigger] videos[i]).video_id != id,
        },
{
    lemma_index_of(ids_of(videos), id);
    if index_of(ids_of(videos), id) is None {
        assert forall|i: int| 0 <= i < videos.len() implies (#[trigger] videos[i]).video_id
            != id by {
            assert(ids_of(videos)[i] == videos[i].video_id);
            assert(ids_of(videos).contains(ids_of(videos)[i]));
        }
    }
}

/// Of several cached videos with one identifier the last one counts.
pub proof fn the_last_cached_video_counts(videos: Seq<VideoView>, id: Seq<char>)
    ensures
        match last_with_id(videos, id) {
            Some(video) => exists|i: int|
                {
                    &&& 0 <= i < videos.len()
                    &&& #[trigger] videos[i] == video
                    &&& videos[i].video_id == id
                    &&& forall|j: int|
                        i < j < videos.len() ==> (#[trigger] videos[j]).video_id != id
                },
            None => forall|j: int| 0 <= j < videos.len() ==> (#[trigger] videos[j]).video_id != id,
        },
    decreases videos.len(),
{
    if videos.len() > 0 {
        let rest = videos.drop_last();
        let last = videos.len() - 1;
        if videos.last().video_id == id {
            assert(videos[last] == videos.last());
        } else {
            the_last_cached_video_counts(rest, id);
            assert(forall|j: int| 0 <= j < rest.len() ==> #[trigger] videos[j] == rest[j]);
            if let Some(video) = last_with_id(rest, id) {
                let i = choose|i: int|
                    {
                        &&& 0 <= i < rest.len()
                        &&& #[trigger] rest[i] == video
                        &&& rest[i].video_id == id
                        &&& forall|j: int|
                            i < j < rest.len() ==> (#[trigger] rest[j]).video_id != id
                    };
                assert(videos[i] == video);
                assert forall|j: int| i < j < videos.len() implies (#[trigger] videos[j]).video_id
                    != id by {
                    if j < last {
                        assert(rest[j].video_id != id);
                    }
                }
            }
        }
    }
}

/// A video only gets texts from the cache that it lacks; all else of it stays.
pub proof fn the_cache_fills_in_texts(video: VideoView, cached: VideoView)
    ensures
        completed(video, None) == video,
        ({
            let after = completed(video, Some(cached));
            &&& video.transcript is Some ==> after.transcript == video.transcript
            &&& video.transcript is None ==> after.transcript == cached.transcript
            &&& video.ai_summary is Some ==> after.ai_summary == video.ai_summary
            &&& video.ai_summary is None ==> after.ai_summary == cached.ai_summary
            &&& after.video_id == video.video_id
            &&& after.channel_id == video.channel_id
            &&& after.channel_name == video.channel_name
            &&& after.title == video.title
            &&& after.published == video.published
            &&& after.thumbnail_url == video.thumbnail_url
            &&& after.duration_seconds == video.duration_seconds
            &&& after.watched == video.watched
        }),
{
}

/// Every video is completed by the cached one with its own identifier, and all stay in their
/// places.
pub proof fn videos_are_completed_one_by_one(
    first: Seq<VideoView>,
    second: Seq<VideoView>,
    video: VideoView,
    cached: Seq<VideoView>,
)
    ensures
        all_completed(first + second, cached) == all_completed(first, cached) + all_completed(
            second,
            cached,
        ),
        all_completed(seq![video], cached) == seq![
            completed(video, last_with_id(cached, video.video_id)),
        ],
        all_completed(seq![video], cached)[0].video_id == video.video_id,
{
    assert(all_completed(first + second, cached) =~= all_completed(first, cached) + all_completed(
        second,
        cached,
    ));
    assert(all_completed(seq![video], cached) =~= seq![
        completed(video, last_with_id(cached, video.video_id)),
    ]);
}

} // verus!
