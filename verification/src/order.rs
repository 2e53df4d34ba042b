//! Videos with the newest first.

use crate::data::{video_views, Timestamp, Video, VideoView};
use vstd::prelude::*;

verus! {

/// How many videos at the front of `videos` are no older than `at`.
pub open spec fn slot(videos: Seq<VideoView>, at: Timestamp) -> int
    decreases videos.len(),
{
    if videos.len() == 0 || at.is_after(videos[0].published) {
        0
    } else {
        1 + slot(videos.drop_first(), at)
    }
}

/// `videos` with the newest first; videos of one time stay in their order.
pub open spec fn newest_first(videos: Seq<VideoView>) -> Seq<VideoView>
    decreases videos.len(),
{
    if videos.len() == 0 {
        Seq::empty()
    } else {
        let sorted = newest_first(videos.drop_last());
        sorted.insert(slot(sorted, videos.last().published), videos.last())
    }
}

/// Whether no video is newer than one before it.
pub open spec fn is_newest_first(videos: Seq<VideoView>) -> bool {
    forall|i: int, j: int|
        0 <= i < j < videos.len() ==> !(#[trigger] videos[j]).published.is_after(
            (#[trigger] videos[i]).published,
        )
}

/// The videos published at one time, in their order.
pub open spec fn published_at(videos: Seq<VideoView>, at: Timestamp) -> Seq<VideoView> {
    videos.filter(|video: VideoView| video.published == at)
}

pub proof fn lemma_slot(videos: Seq<VideoView>, at: Timestamp)
    ensures
        0 <= slot(videos, at) <= videos.len(),
        forall|k: int| 0 <= k < slot(videos, at) ==> !at.is_after(#[trigger] videos[k].published),
        slot(videos, at) < videos.len() ==> at.is_after(videos[slot(videos, at)].published),
    decreases videos.len(),
{
    if videos.len() > 0 && !at.is_after(videos[0].published) {
        let rest = videos.drop_first();
        lemma_slot(rest, at);
        assert forall|k: int| 0 <= k < slot(videos, at) implies !at.is_after(
            #[trigger] videos[k].published,
        ) by {
            if k > 0 {
                assert(rest[k - 1] == videos[k]);
            }
        }
    }
}

proof fn lemma_filter_insert(
    videos: Seq<VideoView>,
    i: int,
    video: VideoView,
    keep: spec_fn(VideoView) -> bool,
)
    requires
        0 <= i <= videos.len(),
    ensures
        videos.insert(i, video).filter(keep) == videos.take(i).filter(keep) + seq![video].filter(
            keep,
        ) + videos.skip(i).filter(keep),
        videos.filter(keep) == videos.take(i).filter(keep) + videos.skip(i).filter(keep),
{
    broadcast use vstd::seq_lib::group_seq_lib_default;

    assert(videos.insert(i, video) =~= videos.take(i) + seq![video] + videos.skip(i));
    assert(videos =~= videos.take(i) + videos.skip(i));
    Seq::filter_distributes_over_add(videos.take(i) + seq![video], videos.skip(i), keep);
    Seq::filter_distributes_over_add(videos.take(i), seq![video], keep);
    Seq::filter_distributes_over_add(videos.take(i), videos.skip(i), keep);
}

proof fn lemma_filter_none(videos: Seq<VideoView>, keep: spec_fn(VideoView) -> bool)
    requires
        forall|i: int| 0 <= i < videos.len() ==> !keep(#[trigger] videos[i]),
    ensures
        videos.filter(keep) == Seq::<VideoView>::empty(),
    decreases videos.len(),
{
    reveal(Seq::filter);
    if videos.len() > 0 {
        assert forall|i: int| 0 <= i < videos.drop_last().len() implies !keep(
            #[trigger] videos.drop_last()[i],
        ) by {
            assert(videos.drop_last()[i] == videos[i]);
        }
        lemma_filter_none(videos.drop_last(), keep);
    }
}

/// Sorting puts the newest first, loses and adds no video, and keeps the order among videos
/// of one time. These three determine the result.
pub proof fn newest_first_is_a_stable_sort(videos: Seq<VideoView>, at: Timestamp)
    ensures
        is_newest_first(newest_first(videos)),
        newest_first(videos).to_multiset() == videos.to_multiset(),
        newest_first(videos).len() == videos.len(),
        published_at(newest_first(videos), at) == published_at(videos, at),
    decreases videos.len(),
{
    broadcast use vstd::seq_lib::group_to_multiset_ensures;

    if videos.len() > 0 {
        let last = videos.last();
        let sorted = newest_first(videos.drop_last());
        let i = slot(sorted, last.published);
        newest_first_is_a_stable_sort(videos.drop_last(), at);
        lemma_slot(sorted, last.published);
        assert(videos =~= videos.drop_last().push(last));
        let result = sorted.insert(i, last);
        assert forall|a: int, b: int| 0 <= a < b < result.len() implies !(
        #[trigger] result[b]).published.is_after((#[trigger] result[a]).published) by {
            if a == i {
                assert(result[b] == sorted[b - 1]);
                assert(!sorted[b - 1].published.is_after(sorted[i].published) || b - 1 == i);
            } else if b == i {
                assert(result[a] == sorted[a]);
            } else {
                let x = if a < i { a } else { a - 1 };
                let y = if b < i { b } else { b - 1 };
                assert(result[a] == sorted[x] && result[b] == sorted[y]);
            }
        }
        let keep = |video: VideoView| video.published == at;
        lemma_filter_insert(sorted, i, last, keep);
        let one = seq![last];
        assert(videos.filter(keep) == videos.drop_last().filter(keep) + one.filter(keep)) by {
            assert(videos =~= videos.drop_last() + one);
            Seq::filter_distributes_over_add(videos.drop_last(), one, keep);
        }
        if last.published == at {
            assert forall|k: int| 0 <= k < sorted.skip(i).len() implies !keep(
                #[trigger] sorted.skip(i)[k],
            ) by {
                assert(sorted.skip(i)[k] == sorted[i + k]);
                if k > 0 {
                    assert(!sorted[i + k].published.is_after(sorted[i].published));
                }
            }
            lemma_filter_none(sorted.skip(i), keep);
            assert(result.filter(keep) =~= sorted.filter(keep) + one.filter(keep));
        } else {
            lemma_filter_none(one, keep);
            assert(result.filter(keep) =~= sorted.filter(keep) + one.filter(keep));
        }
    } else {
        assert(newest_first(videos) =~= videos);
    }
}

/// Sorts videos with the newest first, keeping the order among videos of one time.
pub fn sort_newest_first(videos: &Vec<Video>) -> (sorted: Vec<Video>)
    ensures
        video_views(sorted@) == newest_first(video_views(videos@)),
{
    let ghost all = video_views(videos@);
    let mut sorted: Vec<Video> = Vec::new();
    let mut i: usize = 0;
    assert(video_views(sorted@) =~= newest_first(all.take(0)));
    while i < videos.len()
        invariant
            all == video_views(videos@),
            i <= videos.len(),
            video_views(sorted@) == newest_first(all.take(i as int)),
        decreases videos.len() - i,
    {
        let ghost before = video_views(sorted@);
        let published = videos[i].published();
        let mut at: usize = 0;
        assert(before.skip(0) =~= before);
        while at < sorted.len() && !published.after(&sorted[at].published())
            invariant
                before == video_views(sorted@),
                at <= sorted.len(),
                slot(before, published) == at + slot(before.skip(at as int), published),
            decreases sorted.len() - at,
        {
            assert(before.skip(at as int)[0] == sorted@[at as int]@);
            assert(before.skip(at as int).drop_first() =~= before.skip(at + 1));
            at += 1;
        }
        assert(at < sorted.len() ==> before.skip(at as int)[0] == sorted@[at as int]@);
        let video = videos[i].clone();
        sorted.insert(at, video);
        assert(video_views(sorted@) =~= before.insert(at as int, all[i as int]));
        assert(all.take(i + 1).drop_last() =~= all.take(i as int));
        i += 1;
    }
    assert(all.take(all.len() as int) =~= all);
    sorted
}

} // verus!
