//! Playing videos, one player per video.

use crate::data::VideoView;
use crate::ids::IdSet;
use crate::player::PlaybackEnd;
use crate::ui::state::{
    change_reported, with_changed, AppState, CacheVideoError, SaveView, SidecarSave, StateView,
};
use crate::ui::videos::video_with_id;
use vstd::prelude::*;

verus! {

/// The first thing that happens when a video is to be played: it is claimed, so that no
/// second player starts for it, and its title is given. Nothing is given, and nothing claimed,
/// where a player runs already or there is no such video.
pub fn play_selected_video(state: &AppState, videos_playing: &mut IdSet, video_id: &str) -> (title:
    Option<String>)
    requires
        state.wf(),
        old(videos_playing).wf(),
    ensures
        final(videos_playing).wf(),
        match title {
            Some(title) => {
                &&& !old(videos_playing)@.contains(video_id@)
                &&& video_with_id(state@.videos, video_id@) matches Some(video)
                    && title@ == video.title
                &&& final(videos_playing)@ == old(videos_playing)@.insert(video_id@)
            },
            None => {
                &&& old(videos_playing)@.contains(video_id@) || video_with_id(
                    state@.videos,
                    video_id@,
                ) is None
                &&& final(videos_playing)@ == old(videos_playing)@
            },
        },
{
    let ghost before = videos_playing@;
    if !videos_playing.insert(video_id) {
        assert(before.insert(video_id@) =~= before);
        return None;
    }
    match state.video_by_id(video_id) {
        Some(video) => Some(video.title.clone()),
        None => {
            videos_playing.remove(video_id);
            assert(before.insert(video_id@).remove(video_id@) =~= before);
            None
        },
    }
}

/// What happens when playback ends, or when the player is lost: the video can be played again,
/// and the watched mark that it got when the player started goes where nothing was really
/// played.
pub fn playback_ended(
    state: &mut AppState,
    videos_playing: &mut IdSet,
    video_id: &str,
    end: Option<PlaybackEnd>,
) -> (r: Option<(SidecarSave, Result<(), CacheVideoError>)>)
    requires
        old(state).wf(),
        old(videos_playing).wf(),
    ensures
        final(state).wf(),
        final(videos_playing).wf(),
        final(videos_playing)@ == old(videos_playing)@.remove(video_id@),
        match r {
            Some((save, result)) => {
                &&& end == Some(PlaybackEnd::FailedImmediately)
                &&& save@ == (SaveView::Watched { video_id: video_id@, watched: false })
                &&& change_reported(old(state)@.videos, video_id@, result)
                &&& final(state)@ == (StateView {
                    videos: with_changed(
                        old(state)@.videos,
                        video_id@,
                        |video: VideoView| VideoView { watched: false, ..video },
                    ),
                    ..old(state)@
                })
            },
            None => end != Some(PlaybackEnd::FailedImmediately) && final(state)@ == old(state)@,
        },
{
    videos_playing.remove(video_id);
    match end {
        Some(PlaybackEnd::FailedImmediately) => Some(state.set_video_watched(video_id, false)),
        _ => None,
    }
}

} // verus!
