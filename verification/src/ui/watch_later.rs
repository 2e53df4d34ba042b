//! The watch-later list and the downloads that belong to it.

use crate::cache::storage::{
    area_path, is_legacy, is_legacy_download, video_file_name, CacheArea, Storage,
};
use crate::data::ids_of;
use crate::ids::IdSet;
use crate::paths::joined_path;
use crate::ui::state::{AppState, StateView};
use crate::ui::videos::{lemma_index_of, video_with_id};
use vstd::prelude::*;

verus! {

/// What follows a toggle of the watch-later list.
#[derive(Debug, Clone, Copy, PartialEq, Eq, Structural)]
pub struct WatchLaterToggle {
    /// Whether the video is on the list now.
    pub added: bool,
    /// Whether to download the video.
    pub needs_download: bool,
    /// Whether to delete the downloads of the video.
    pub deletes_files: bool,
}

/// The state after a video is put on the watch-later list or taken off it. The downloads of a
/// video that is taken off go, unless one is still being written.
pub open spec fn toggled(
    state: StateView,
    video_id: Seq<char>,
    downloading: Set<Seq<char>>,
) -> StateView {
    if !state.watch_later.contains(video_id) {
        StateView { watch_later: state.watch_later.insert(video_id), ..state }
    } else if downloading.contains(video_id) {
        StateView { watch_later: state.watch_later.remove(video_id), ..state }
    } else {
        StateView {
            watch_later: state.watch_later.remove(video_id),
            downloaded: state.downloaded.remove(video_id),
            legacy: state.legacy.remove(video_id),
            ..state
        }
    }
}

/// What follows a toggle.
pub open spec fn toggle_outcome(
    state: StateView,
    video_id: Seq<char>,
    downloading: Set<Seq<char>>,
) -> WatchLaterToggle {
    let added = !state.watch_later.contains(video_id);
    WatchLaterToggle {
        added,
        needs_download: added && (!state.downloaded.contains(video_id) || state.legacy.contains(
            video_id,
        )),
        deletes_files: !added && !downloading.contains(video_id),
    }
}

/// Puts a video on the watch-later list or takes it off.
pub fn perform_watch_later_toggle(
    state: &mut AppState,
    downloads_in_progress: &IdSet,
    video_id: &str,
) -> (outcome: WatchLaterToggle)
    requires
        old(state).wf(),
    ensures
        final(state).wf(),
        final(state)@ == toggled(old(state)@, video_id@, downloads_in_progress@),
        outcome == toggle_outcome(old(state)@, video_id@, downloads_in_progress@),
{
    let ghost before = state@;
    let added = !state.unlist_for_later(video_id);
    if added {
        assert(state@.watch_later =~= before.watch_later);
        state.list_for_later(video_id);
    }
    let needs_download = added && (!state.downloaded_video_ids().contains(video_id)
        || state.legacy_video_ids().contains(video_id));
    let deletes_files = !added && !downloads_in_progress.contains(video_id);
    if deletes_files {
        state.forget_downloads(video_id);
    }
    WatchLaterToggle { added, needs_download, deletes_files }
}

/// Toggling a video twice gives back the watch-later list, and never touches other videos.
pub proof fn toggling_twice_gives_back_the_list(
    state: StateView,
    video_id: Seq<char>,
    downloading: Set<Seq<char>>,
    downloading_later: Set<Seq<char>>,
    other: Seq<char>,
)
    ensures
        toggled(toggled(state, video_id, downloading), video_id, downloading_later).watch_later
            == state.watch_later,
        other != video_id ==> {
            let after = toggled(state, video_id, downloading);
            &&& after.watch_later.contains(other) == state.watch_later.contains(other)
            &&& after.downloaded.contains(other) == state.downloaded.contains(other)
            &&& after.legacy.contains(other) == state.legacy.contains(other)
        },
        toggled(state, video_id, downloading).videos == state.videos,
        toggled(state, video_id, downloading).feed == state.feed,
{
    assert(toggled(toggled(state, video_id, downloading), video_id, downloading_later).watch_later
        =~= state.watch_later);
}

/// What to do when a watch-later button is pressed.
#[derive(Debug, Clone, Copy, PartialEq, Eq, Structural)]
pub enum WatchLaterAction {
    /// There is no such video any more.
    Missing,
    /// Ask first: the video's downloads would go.
    Confirm,
    /// Toggle at once.
    Toggle,
}

/// What to do when a watch-later button is pressed: ask before downloads, finished or not,
/// would go.
pub open spec fn watch_later_action(
    state: StateView,
    video_id: Seq<char>,
    downloading: Set<Seq<char>>,
) -> WatchLaterAction {
    if video_with_id(state.videos, video_id) is None {
        WatchLaterAction::Missing
    } else if state.watch_later.contains(video_id) && (state.downloaded.contains(video_id)
        || downloading.contains(video_id)) {
        WatchLaterAction::Confirm
    } else {
        WatchLaterAction::Toggle
    }
}

/// What to do when a watch-later button is pressed.
pub fn apply_watch_later_action(
    state: &AppState,
    downloads_in_progress: &IdSet,
    video_id: &str,
) -> (action: WatchLaterAction)
    requires
        state.wf(),
    ensures
        action == watch_later_action(state@, video_id@, downloads_in_progress@),
{
    if state.video_by_id(video_id).is_none() {
        return WatchLaterAction::Missing;
    }
    let has_local_files = state.downloaded_video_ids().contains(video_id)
        || downloads_in_progress.contains(video_id);
    if state.watch_later().contains(video_id) && has_local_files {
        WatchLaterAction::Confirm
    } else {
        WatchLaterAction::Toggle
    }
}

/// Downloads, finished or not, never go without a question: where a button press toggles at
/// once, the video has none.
pub proof fn downloads_go_only_after_a_question(
    state: StateView,
    video_id: Seq<char>,
    downloading: Set<Seq<char>>,
)
    requires
        watch_later_action(state, video_id, downloading) == WatchLaterAction::Toggle,
        toggle_outcome(state, video_id, downloading).deletes_files,
    ensures
        !state.downloaded.contains(video_id),
        !downloading.contains(video_id),
{
}

/// The question before a removal.
pub fn removal_question(video_title: &str) -> (r: String)
    ensures
        r@ == "Remove \""@ + video_title@ + "\" from Watch Later?"@,
{
    "Remove \"".to_owned().concat(video_title).concat("\" from Watch Later?")
}

/// Takes a video off the watch-later list once that was confirmed. A video that was taken off
/// while the question stood is not put on again.
pub fn confirm_watch_later_removal(
    state: &mut AppState,
    downloads_in_progress: &IdSet,
    video_id: &str,
) -> (outcome: Option<WatchLaterToggle>)
    requires
        old(state).wf(),
    ensures
        final(state).wf(),
        outcome == if old(state)@.watch_later.contains(video_id@) {
            Some(toggle_outcome(old(state)@, video_id@, downloads_in_progress@))
        } else {
            None
        },
        final(state)@ == if old(state)@.watch_later.contains(video_id@) {
            toggled(old(state)@, video_id@, downloads_in_progress@)
        } else {
            old(state)@
        },
        !final(state)@.watch_later.contains(video_id@),
{
    if !state.watch_later().contains(video_id) {
        return None;
    }
    Some(perform_watch_later_toggle(state, downloads_in_progress, video_id))
}

/// Begins the download of a video, unless one is running already; gives the path to download
/// to.
pub fn start_tracked_download(
    storage: &Storage,
    downloads_in_progress: &mut IdSet,
    video_id: &str,
    video_title: &str,
) -> (path: Option<String>)
    requires
        storage.wf(),
        old(downloads_in_progress).wf(),
    ensures
        final(downloads_in_progress).wf(),
        final(downloads_in_progress)@ == old(downloads_in_progress)@.insert(video_id@),
        match path {
            Some(path) => !old(downloads_in_progress)@.contains(video_id@) && path@ == joined_path(
                area_path(storage@, CacheArea::Videos),
                video_file_name(video_id@, video_title@),
            ),
            None => old(downloads_in_progress)@.contains(video_id@),
        },
{
    if !downloads_in_progress.insert(video_id) {
        return None;
    }
    Some(storage.video_path(video_id, video_title))
}

/// What a card says of its video's download.
#[derive(Debug, Clone, Copy, PartialEq, Eq, Structural)]
pub enum DownloadBadge {
    Downloading,
    Downloaded,
    /// Neither downloaded nor downloading.
    Clear,
}

/// What follows the end of a download.
#[derive(Debug, Clone, Copy, PartialEq, Eq, Structural)]
pub struct DownloadEnd {
    /// Whether to delete legacy downloads of the video, which the new one replaces.
    pub deletes_legacy_files: bool,
    /// Whether to delete all downloads of the video.
    pub deletes_files: bool,
    pub badge: DownloadBadge,
}

/// The state after a download ended. Where the video was taken off the watch-later list
/// meanwhile, its downloads go now.
pub open spec fn download_finished(
    state: StateView,
    video_id: Seq<char>,
    succeeded: bool,
) -> StateView {
    if !state.watch_later.contains(video_id) {
        StateView {
            downloaded: state.downloaded.remove(video_id),
            legacy: state.legacy.remove(video_id),
            ..state
        }
    } else if succeeded {
        StateView {
            downloaded: state.downloaded.insert(video_id),
            legacy: state.legacy.remove(video_id),
            ..state
        }
    } else {
        state
    }
}

/// What follows the end of a download.
pub open spec fn download_end(state: StateView, video_id: Seq<char>, succeeded: bool) -> DownloadEnd {
    let wanted = state.watch_later.contains(video_id);
    DownloadEnd {
        deletes_legacy_files: succeeded,
        deletes_files: !wanted,
        badge: if succeeded && wanted {
            DownloadBadge::Downloaded
        } else {
            DownloadBadge::Clear
        },
    }
}

/// Ends the download of a video.
pub fn finish_tracked_download(
    state: &mut AppState,
    downloads_in_progress: &mut IdSet,
    video_id: &str,
    succeeded: bool,
) -> (end: DownloadEnd)
    requires
        old(state).wf(),
        old(downloads_in_progress).wf(),
    ensures
        final(state).wf(),
        final(downloads_in_progress).wf(),
        final(downloads_in_progress)@ == old(downloads_in_progress)@.remove(video_id@),
        final(state)@ == download_finished(old(state)@, video_id@, succeeded),
        end == download_end(old(state)@, video_id@, succeeded),
{
    let ghost before = state@;
    downloads_in_progress.remove(video_id);
    if succeeded {
        state.note_downloaded(video_id);
    }
    let still_wanted = state.watch_later().contains(video_id);
    if !still_wanted {
        state.forget_downloads(video_id);
        assert(state@ =~= download_finished(before, video_id@, succeeded));
    }
    DownloadEnd {
        deletes_legacy_files: succeeded,
        deletes_files: !still_wanted,
        badge: if succeeded && still_wanted {
            DownloadBadge::Downloaded
        } else {
            DownloadBadge::Clear
        },
    }
}

/// The downloads of a video that is taken off the watch-later list go: at once, or, if one is
/// being written, when it ends.
pub proof fn removed_videos_lose_their_downloads(
    state: StateView,
    video_id: Seq<char>,
    downloading: Set<Seq<char>>,
    succeeded: bool,
)
    requires
        state.watch_later.contains(video_id),
    ensures
        downloading.contains(video_id) ==> download_end(
            toggled(state, video_id, downloading),
            video_id,
            succeeded,
        ).deletes_files && !download_finished(
            toggled(state, video_id, downloading),
            video_id,
            succeeded,
        ).downloaded.contains(video_id),
        !downloading.contains(video_id) ==> toggle_outcome(
            state,
            video_id,
            downloading,
        ).deletes_files && !toggled(state, video_id, downloading).downloaded.contains(video_id),
{
}

/// Whether to download a video anew when it is played from a local file: a legacy download of
/// a watch-later video.
pub fn resolve_playback_path(state: &AppState, video_id: &str, local_name: Option<&str>) -> (
    upgrade: bool)
    requires
        state.wf(),
    ensures
        upgrade == (local_name matches Some(name) && is_legacy(name@)
            && state@.watch_later.contains(video_id@)),
{
    match local_name {
        Some(name) => is_legacy_download(name) && state.watch_later().contains(video_id),
        None => false,
    }
}

/// Whether a video that is put on the watch-later list has to be downloaded, going by its
/// local file: where there is none, or a legacy one.
pub fn needs_download_upgrade(local_name: Option<&str>) -> (r: bool)
    ensures
        r == match local_name {
            Some(name) => is_legacy(name@),
            None => true,
        },
{
    match local_name {
        Some(name) => is_legacy_download(name),
        None => true,
    }
}

/// The number on the watch-later tab.
pub fn update_watch_later_badge(state: &AppState) -> (n: u32)
    requires
        state.wf(),
    ensures
        n == if state@.watch_later.len() <= u32::MAX {
            state@.watch_later.len()
        } else {
            u32::MAX as nat
        },
{
    let count: usize = state.watch_later().len();
    if count <= u32::MAX as usize {
        count as u32
    } else {
        u32::MAX
    }
}

/// A toggle puts a video on the list that is not on it, and takes one off that is. A video that
/// comes is downloaded unless it is already, and anew where its download is a legacy one. The
/// files of a video that goes, and what is known of them, go with it unless a download is being
/// written. Nothing else changes.
pub proof fn a_toggle_lists_or_unlists_one_video(
    state: StateView,
    video_id: Seq<char>,
    downloading: Set<Seq<char>>,
)
    ensures
        ({
            let after = toggled(state, video_id, downloading);
            let outcome = toggle_outcome(state, video_id, downloading);
            &&& after.videos == state.videos
            &&& after.feed == state.feed
            &&& after.search == state.search
            &&& after.watch_later.contains(video_id) <==> !state.watch_later.contains(video_id)
            &&& outcome.added <==> after.watch_later.contains(video_id)
            &&& outcome.needs_download <==> (!state.watch_later.contains(video_id) && (
            !state.downloaded.contains(video_id) || state.legacy.contains(video_id)))
            &&& outcome.deletes_files <==> (state.watch_later.contains(video_id)
                && !downloading.contains(video_id))
            &&& outcome.deletes_files ==> after.downloaded == state.downloaded.remove(video_id)
                && after.legacy == state.legacy.remove(video_id)
            &&& !outcome.deletes_files ==> after.downloaded == state.downloaded && after.legacy
                == state.legacy
        }),
{
}

/// A press of the button does nothing where the video is gone, asks where files of a listed
/// video are there or being written, and toggles at once in all other cases.
pub proof fn only_removals_with_files_ask(
    state: StateView,
    video_id: Seq<char>,
    downloading: Set<Seq<char>>,
)
    ensures
        ({
            let action = watch_later_action(state, video_id, downloading);
            let there = ids_of(state.videos).contains(video_id);
            let asks = state.watch_later.contains(video_id) && (state.downloaded.contains(video_id)
                || downloading.contains(video_id));
            &&& !there ==> action == WatchLaterAction::Missing
            &&& there && asks ==> action == WatchLaterAction::Confirm
            &&& there && !asks ==> action == WatchLaterAction::Toggle
        }),
{
    lemma_index_of(ids_of(state.videos), video_id);
}

/// After a download has ended, the video counts as downloaded where it is still on the list and
/// the download succeeded, or it counted before; it has a legacy download only where it had and
/// got no new one. The lists and all that belongs to other videos stay as they were.
pub proof fn ended_downloads_count_where_they_are_wanted(
    state: StateView,
    video_id: Seq<char>,
    succeeded: bool,
    other: Seq<char>,
)
    ensures
        ({
            let after = download_finished(state, video_id, succeeded);
            let end = download_end(state, video_id, succeeded);
            let wanted = state.watch_later.contains(video_id);
            &&& after.videos == state.videos
            &&& after.feed == state.feed
            &&& after.search == state.search
            &&& after.watch_later == state.watch_later
            &&& after.downloaded.contains(video_id) <==> (wanted && (succeeded
                || state.downloaded.contains(video_id)))
            &&& after.legacy.contains(video_id) <==> (wanted && !succeeded
                && state.legacy.contains(video_id))
            &&& other != video_id ==> (after.downloaded.contains(other)
                <==> state.downloaded.contains(other))
            &&& other != video_id ==> (after.legacy.contains(other) <==> state.legacy.contains(
                other,
            ))
            &&& end.deletes_legacy_files <==> succeeded
            &&& end.deletes_files <==> !wanted
            &&& end.badge == DownloadBadge::Downloaded <==> (succeeded && wanted)
            &&& end.badge == DownloadBadge::Clear <==> !(succeeded && wanted)
        }),
{
}

} // verus!
