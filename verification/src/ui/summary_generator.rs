//! When summaries are generated, and what becomes of them.

use crate::cache::storage::{area_path, subtitle_video_id, CacheArea, Storage};
use crate::data::{has_summary, ids_of, Video, VideoView};
use crate::ids::IdSet;
use crate::paths::joined_path;
use crate::summary::{SummarizeRequest, SummaryOutcome};
use crate::text::{blank, is_blank, opt_text};
use crate::ui::state::{changes_reach_one_video, with_changed, AppState, SaveView, SidecarSave, StateView};
use crate::ui::videos::{lemma_index_of, video_with_id};
use crate::urls;
use vstd::prelude::*;

verus! {

/// Why a summary is generated.
#[derive(Debug, Clone, Copy, PartialEq, Eq, Structural)]
pub enum SummaryGenerationMode {
    /// Ahead of time: not where there is a summary already.
    Prefetch,
    /// Because it was asked for.
    Interactive,
}

/// Why a generation does not start.
#[derive(Debug, Clone, Copy, PartialEq, Eq, Structural)]
pub enum StartSummaryGenerationError {
    MissingVideo,
    AlreadyCached,
    AlreadyInProgress,
}

pub open spec fn start_error_text(error: StartSummaryGenerationError) -> Seq<char> {
    match error {
        StartSummaryGenerationError::MissingVideo => "Video is no longer available."@,
        StartSummaryGenerationError::AlreadyCached => "Summary is already cached."@,
        StartSummaryGenerationError::AlreadyInProgress =>
            "Summary generation is already in progress."@,
    }
}

impl StartSummaryGenerationError {
    pub fn message(self) -> (r: &'static str)
        ensures
            r@ == start_error_text(self),
    {
        match self {
            StartSummaryGenerationError::MissingVideo => "Video is no longer available.",
            StartSummaryGenerationError::AlreadyCached => "Summary is already cached.",
            StartSummaryGenerationError::AlreadyInProgress =>
                "Summary generation is already in progress.",
        }
    }
}

/// Why the generation of a summary does not start, if it does not.
pub open spec fn start_error(
    state: StateView,
    in_progress: Set<Seq<char>>,
    video_id: Seq<char>,
    mode: SummaryGenerationMode,
) -> Option<StartSummaryGenerationError> {
    match video_with_id(state.videos, video_id) {
        None => Some(StartSummaryGenerationError::MissingVideo),
        Some(video) => if mode == SummaryGenerationMode::Prefetch && has_summary(video) {
            Some(StartSummaryGenerationError::AlreadyCached)
        } else if in_progress.contains(video_id) {
            Some(StartSummaryGenerationError::AlreadyInProgress)
        } else {
            None
        },
    }
}

/// Starts the generation of a summary: gives the video, and notes that its summary is being
/// generated, so that no second generation starts meanwhile.
pub fn prepare_summary_generation_video(
    state: &AppState,
    summaries_in_progress: &mut IdSet,
    video_id: &str,
    mode: SummaryGenerationMode,
) -> (r: Result<Video, StartSummaryGenerationError>)
    requires
        state.wf(),
        old(summaries_in_progress).wf(),
    ensures
        final(summaries_in_progress).wf(),
        match r {
            Ok(video) => {
                &&& start_error(state@, old(summaries_in_progress)@, video_id@, mode) is None
                &&& video_with_id(state@.videos, video_id@) == Some(video@)
                &&& final(summaries_in_progress)@ == old(summaries_in_progress)@.insert(video_id@)
            },
            Err(error) => {
                &&& start_error(state@, old(summaries_in_progress)@, video_id@, mode) == Some(error)
                &&& final(summaries_in_progress)@ == old(summaries_in_progress)@
            },
        },
{
    let video = match state.video_by_id(video_id) {
        Some(video) => video.clone(),
        None => {
            return Err(StartSummaryGenerationError::MissingVideo);
        },
    };
    if mode == SummaryGenerationMode::Prefetch && video.has_ai_summary() {
        return Err(StartSummaryGenerationError::AlreadyCached);
    }
    if summaries_in_progress.contains(video_id) {
        return Err(StartSummaryGenerationError::AlreadyInProgress);
    }
    summaries_in_progress.insert(video_id);
    Ok(video)
}

/// What is summarized: a video, with the subtitles that are among the downloads `names`.
pub fn summarize_request(video: &Video, storage: &Storage, names: &Vec<String>) -> (request:
    SummarizeRequest)
    requires
        storage.wf(),
    ensures
        request.video_id@ == video@.video_id,
        request.video_url@ == urls::spec_watch_url(video@.video_id),
        request.video_title@ == video@.title,
        request.channel_name@ == video@.channel_name,
        request.transcripts_work_dir@ == area_path(storage@, CacheArea::TranscriptsWork),
        match request.local_subtitle_path {
            Some(path) => exists|i: int|
                {
                    &&& 0 <= i < names.len()
                    &&& subtitle_video_id(#[trigger] names@[i]@) == Some(video@.video_id)
                    &&& path@ == joined_path(area_path(storage@, CacheArea::Videos), names@[i]@)
                    &&& forall|j: int|
                        0 <= j < i ==> subtitle_video_id(#[trigger] names@[j]@) != Some(
                            video@.video_id,
                        )
                },
            None => forall|j: int|
                0 <= j < names.len() ==> subtitle_video_id(#[trigger] names@[j]@) != Some(
                    video@.video_id,
                ),
        },
{
    SummarizeRequest {
        video_id: video.video_id.clone(),
        video_url: video.watch_url(),
        video_title: video.title.clone(),
        channel_name: video.channel_name.clone(),
        transcripts_work_dir: storage.transcripts_work_dir().to_owned(),
        local_subtitle_path: storage.find_subtitle_path(names, video.video_id()),
    }
}

/// What a generation gave; an error where it was lost.
pub fn wait(received: Option<Result<SummaryOutcome, String>>) -> (r: Result<SummaryOutcome, String>)
    ensures
        match received {
            Some(result) => r == result,
            None => r matches Err(error) && error@ == "summary task ended without a result"@,
        },
{
    match received {
        Some(result) => result,
        None => Err("summary task ended without a result".to_owned()),
    }
}

/// What follows the end of a generation.
#[derive(Debug)]
pub struct GenerationEnd {
    /// What the dialog shows, if there is one.
    pub text: String,
    /// What is to be saved.
    pub save: Option<SidecarSave>,
    /// Whether the cards are to show that there is a summary, where that is settled anew.
    pub summary_badge: Option<bool>,
}

/// What the dialog shows once a generation ended.
pub open spec fn generation_text(
    videos: Seq<VideoView>,
    video_id: Seq<char>,
    result: Result<SummaryOutcome, String>,
) -> Seq<char> {
    match result {
        Ok(SummaryOutcome::Summary(summary)) => if video_with_id(videos, video_id) is Some {
            summary@
        } else {
            "Error: Video "@ + video_id + " is no longer available"@
        },
        Ok(SummaryOutcome::TranscriptOnly(transcript)) =>
            "No AI provider was available; showing the raw transcript instead.\n\n"@ + transcript@,
        Err(error) => "Error: "@ + error@,
    }
}

/// What is saved once a generation ended: a transcript is never saved as a summary.
pub open spec fn generation_save(
    video_id: Seq<char>,
    result: Result<SummaryOutcome, String>,
) -> Option<SaveView> {
    match result {
        Ok(SummaryOutcome::Summary(summary)) => Some(
            SaveView::Summary { video_id, text: summary@ },
        ),
        Ok(SummaryOutcome::TranscriptOnly(transcript)) => Some(
            SaveView::Transcript { video_id, text: transcript@ },
        ),
        Err(_) => None,
    }
}

/// The videos once a generation ended.
pub open spec fn generation_videos(
    videos: Seq<VideoView>,
    video_id: Seq<char>,
    result: Result<SummaryOutcome, String>,
) -> Seq<VideoView> {
    match result {
        Ok(SummaryOutcome::Summary(summary)) => with_changed(
            videos,
            video_id,
            |video: VideoView| VideoView { ai_summary: Some(summary@), ..video },
        ),
        Ok(SummaryOutcome::TranscriptOnly(transcript)) => with_changed(
            videos,
            video_id,
            |video: VideoView| VideoView { transcript: Some(transcript@), ..video },
        ),
        Err(_) => videos,
    }
}

pub open spec fn opt_save(save: Option<SidecarSave>) -> Option<SaveView> {
    match save {
        Some(save) => Some(save@),
        None => None,
    }
}

/// Takes in what a generation gave. The video's summary can be generated again afterwards.
pub fn finish_summary_generation(
    state: &mut AppState,
    summaries_in_progress: &mut IdSet,
    video_id: &str,
    result: Result<SummaryOutcome, String>,
) -> (end: GenerationEnd)
    requires
        old(state).wf(),
        old(summaries_in_progress).wf(),
    ensures
        final(state).wf(),
        final(summaries_in_progress).wf(),
        final(summaries_in_progress)@ == old(summaries_in_progress)@.remove(video_id@),
        final(state)@ == (StateView {
            videos: generation_videos(old(state)@.videos, video_id@, result),
            ..old(state)@
        }),
        end.text@ == generation_text(old(state)@.videos, video_id@, result),
        opt_save(end.save) == generation_save(video_id@, result),
        end.summary_badge == match (result, video_with_id(old(state)@.videos, video_id@)) {
            (Ok(SummaryOutcome::Summary(summary)), Some(_)) => Some(!is_blank(summary@)),
            _ => None::<bool>,
        },
{
    summaries_in_progress.remove(video_id);
    match result {
        Ok(SummaryOutcome::Summary(summary)) => {
            let shows_summary = !blank(summary.as_str());
            let text = summary.clone();
            let (save, cached) = state.cache_video_ai_summary(video_id, summary);
            match cached {
                Ok(()) => GenerationEnd {
                    text,
                    save: Some(save),
                    summary_badge: Some(shows_summary),
                },
                Err(error) => {
                    let text = "Error: ".to_owned().concat(error.message().as_str());
                    assert(text@ =~= "Error: Video "@ + video_id@ + " is no longer available"@) by {
                        reveal_strlit("Error: ");
                        reveal_strlit("Video ");
                        reveal_strlit("Error: Video ");
                        assert("Error: "@ + "Video "@ =~= "Error: Video "@);
                    }
                    GenerationEnd { text, save: Some(save), summary_badge: None }
                },
            }
        },
        Ok(SummaryOutcome::TranscriptOnly(transcript)) => {
            let text =
                "No AI provider was available; showing the raw transcript instead.\n\n".to_owned().concat(
                transcript.as_str(),
            );
            let (save, _cached) = state.cache_video_transcript(video_id, transcript);
            GenerationEnd { text, save: Some(save), summary_badge: None }
        },
        Err(error) => GenerationEnd {
            text: "Error: ".to_owned().concat(error.as_str()),
            save: None,
            summary_badge: None,
        },
    }
}

/// A transcript that stands in for a summary is never kept as one.
pub proof fn transcripts_are_not_kept_as_summaries(
    videos: Seq<VideoView>,
    video_id: Seq<char>,
    transcript: String,
    i: int,
)
    requires
        0 <= i < videos.len(),
    ensures
        generation_videos(
            videos,
            video_id,
            Ok(SummaryOutcome::TranscriptOnly(transcript)),
        )[i].ai_summary == videos[i].ai_summary,
        !(generation_save(video_id, Ok(SummaryOutcome::TranscriptOnly(transcript))) matches Some(
            SaveView::Summary { .. },
        )),
{
    lemma_index_of(ids_of(videos), video_id);
}

/// The summary that a dialog opens with, where there is one that is not blank.
pub fn cached_summary(video: &Video) -> (r: Option<String>)
    ensures
        match r {
            Some(summary) => video@.ai_summary == Some(summary@) && !is_blank(summary@),
            None => !has_summary(video@),
        },
{
    match &video.ai_summary {
        Some(summary) => if blank(summary.as_str()) {
            None
        } else {
            Some(summary.clone())
        },
        None => None,
    }
}

/// The transcript that a dialog opens with: the one that is known, else the one that is saved.
pub fn cached_transcript(video: &Video, saved: Option<String>) -> (r: Option<String>)
    ensures
        opt_text(r) == if video@.transcript is Some {
            video@.transcript
        } else {
            opt_text(saved)
        },
{
    match &video.transcript {
        Some(transcript) => Some(transcript.clone()),
        None => saved,
    }
}

/// What a dialog shows that waited for a text.
pub fn show_fetched(fetched: Result<String, String>) -> (r: String)
    ensures
        r@ == match fetched {
            Ok(text) => text@,
            Err(error) => "Error: "@ + error@,
        },
{
    match fetched {
        Ok(text) => text,
        Err(error) => "Error: ".to_owned().concat(error.as_str()),
    }
}

/// A generation starts for a known video that none is running for: always where it was asked
/// for, and ahead of time only where the video has no summary.
pub proof fn generations_start_once(
    state: StateView,
    in_progress: Set<Seq<char>>,
    video_id: Seq<char>,
    mode: SummaryGenerationMode,
)
    ensures
        ({
            let error = start_error(state, in_progress, video_id, mode);
            match video_with_id(state.videos, video_id) {
                None => error == Some(StartSummaryGenerationError::MissingVideo),
                Some(video) => {
                    let unneeded = mode is Prefetch && has_summary(video);
                    &&& unneeded ==> error == Some(StartSummaryGenerationError::AlreadyCached)
                    &&& !unneeded && in_progress.contains(video_id) ==> error == Some(
                        StartSummaryGenerationError::AlreadyInProgress,
                    )
                    &&& !unneeded && !in_progress.contains(video_id) ==> error is None
                },
            }
        }),
{
}

/// A summary becomes the summary of its video, and a transcript its transcript; nothing else of
/// the video changes, and no other video does. Without a result nothing changes.
pub proof fn results_reach_their_video(
    videos: Seq<VideoView>,
    video_id: Seq<char>,
    summary: String,
    transcript: String,
    error: String,
    i: int,
)
    requires
        ids_of(videos).no_duplicates(),
        0 <= i < videos.len(),
    ensures
        ({
            let before = videos[i];
            let after = generation_videos(videos, video_id, Ok(SummaryOutcome::Summary(summary)))[i];
            &&& before.video_id == video_id ==> after == (VideoView {
                ai_summary: Some(summary@),
                ..before
            })
            &&& before.video_id != video_id ==> after == before
        }),
        ({
            let before = videos[i];
            let after = generation_videos(
                videos,
                video_id,
                Ok(SummaryOutcome::TranscriptOnly(transcript)),
            )[i];
            &&& before.video_id == video_id ==> after == (VideoView {
                transcript: Some(transcript@),
                ..before
            })
            &&& before.video_id != video_id ==> after == before
        }),
        generation_videos(videos, video_id, Err(error)) == videos,
{
    changes_reach_one_video(
        videos,
        video_id,
        |video: VideoView| VideoView { ai_summary: Some(summary@), ..video },
        error,
    );
    changes_reach_one_video(
        videos,
        video_id,
        |video: VideoView| VideoView { transcript: Some(transcript@), ..video },
        error,
    );
}

/// A summary is saved as a summary and a transcript as a transcript, both for their video and
/// as they are; an error saves nothing.
pub proof fn results_are_saved_as_they_are(
    video_id: Seq<char>,
    summary: String,
    transcript: String,
    error: String,
)
    ensures
        generation_save(video_id, Ok(SummaryOutcome::Summary(summary))) == Some(
            SaveView::Summary { video_id, text: summary@ },
        ),
        generation_save(video_id, Ok(SummaryOutcome::TranscriptOnly(transcript))) == Some(
            SaveView::Transcript { video_id, text: transcript@ },
        ),
        generation_save(video_id, Err(error)) is None,
{
}

/// The dialog shows a summary as it is, a transcript behind a line that says what it is, and
/// an error as one; so it does where the video is gone.
pub proof fn dialogs_show_the_result(
    videos: Seq<VideoView>,
    video_id: Seq<char>,
    summary: String,
    transcript: String,
    error: String,
)
    ensures
        ids_of(videos).contains(video_id) ==> generation_text(
            videos,
            video_id,
            Ok(SummaryOutcome::Summary(summary)),
        ) == summary@,
        !ids_of(videos).contains(video_id) ==> generation_text(
            videos,
            video_id,
            Ok(SummaryOutcome::Summary(summary)),
        ) == "Error: Video "@ + video_id + " is no longer available"@,
        generation_text(videos, video_id, Ok(SummaryOutcome::TranscriptOnly(transcript)))
            == "No AI provider was available; showing the raw transcript instead.\n\n"@
            + transcript@,
        generation_text(videos, video_id, Err(error)) == "Error: "@ + error@,
{
    lemma_index_of(ids_of(videos), video_id);
}

/// Why a generation does not start is told.
pub proof fn refused_generations_are_told()
    ensures
        start_error_text(StartSummaryGenerationError::MissingVideo)
            == "Video is no longer available."@,
        start_error_text(StartSummaryGenerationError::AlreadyCached) == "Summary is already cached."@,
        start_error_text(StartSummaryGenerationError::AlreadyInProgress)
            == "Summary generation is already in progress."@,
{
}

} // verus!
