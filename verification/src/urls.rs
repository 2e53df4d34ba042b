//! `YouTube` URLs, written down in one place.

use vstd::prelude::*;

verus! {

pub open spec fn spec_watch_url(video_id: Seq<char>) -> Seq<char> {
    "https://www.youtube.com/watch?v="@ + video_id
}

pub open spec fn spec_thumbnail_url(video_id: Seq<char>) -> Seq<char> {
    "https://i.ytimg.com/vi/"@ + video_id + "/hqdefault.jpg"@
}

/// The watch page of a video.
pub fn watch_url(video_id: &str) -> (url: String)
    ensures
        url@ == spec_watch_url(video_id@),
{
    "https://www.youtube.com/watch?v=".to_owned().concat(video_id)
}

/// The thumbnail image of a video, in `hqdefault` quality.
pub fn thumbnail_url(video_id: &str) -> (url: String)
    ensures
        url@ == spec_thumbnail_url(video_id@),
{
    "https://i.ytimg.com/vi/".to_owned().concat(video_id).concat("/hqdefault.jpg")
}

/// The addresses of a video hold its identifier, and nothing else that differs from video to
/// video.
pub proof fn addresses_hold_the_identifier(video_id: Seq<char>)
    ensures
        spec_watch_url(video_id).len() == 32 + video_id.len(),
        spec_watch_url(video_id).take(32) == "https://www.youtube.com/watch?v="@,
        spec_watch_url(video_id).skip(32) == video_id,
        spec_thumbnail_url(video_id).len() == 37 + video_id.len(),
        spec_thumbnail_url(video_id).take(23) == "https://i.ytimg.com/vi/"@,
        spec_thumbnail_url(video_id).subrange(23, 23int + video_id.len()) == video_id,
        spec_thumbnail_url(video_id).skip(23int + video_id.len()) == "/hqdefault.jpg"@,
{
    reveal_strlit("https://www.youtube.com/watch?v=");
    reveal_strlit("https://i.ytimg.com/vi/");
    reveal_strlit("/hqdefault.jpg");
    assert(spec_watch_url(video_id).take(32) =~= "https://www.youtube.com/watch?v="@);
    assert(spec_watch_url(video_id).skip(32) =~= video_id);
    assert(spec_thumbnail_url(video_id).take(23) =~= "https://i.ytimg.com/vi/"@);
    assert(spec_thumbnail_url(video_id).subrange(23, 23int + video_id.len()) =~= video_id);
    assert(spec_thumbnail_url(video_id).skip(23int + video_id.len()) =~= "/hqdefault.jpg"@);
}

} // verus!
