//! Downloads: the downloader's command lines and what its exit means.

use crate::paths::{
    extensions_are_exchanged, join_path, joined_path, with_extension, with_extension_of,
};
use crate::text::{
    owned, signed_decimal, texts, to_decimal, to_signed_decimal, trim, trimmed, decimal,
};
use vstd::prelude::*;

verus! {

/// How long a download may take, in seconds.
pub const MEDIA_DOWNLOAD_TIMEOUT_SECS: u64 = 1800;

/// Errors of downloads.
#[derive(Debug)]
pub enum DownloadError {
    /// The downloader could not be run.
    Io(String),
    /// The downloader ended without success.
    Failed { exit_code: Option<i32>, stderr: String },
    /// The downloader did not end in time; the limit is in seconds.
    TimedOut(u64),
}

/// An exit code as it is shown.
pub open spec fn exit_code_text(code: Option<i32>) -> Seq<char> {
    match code {
        Some(code) => "Some("@ + signed_decimal(code as int) + ")"@,
        None => "None"@,
    }
}

pub open spec fn download_error_text(error: DownloadError) -> Seq<char> {
    match error {
        DownloadError::Io(cause) => "I/O error: "@ + cause@,
        DownloadError::Failed { exit_code, stderr } => "yt-dlp failed with exit code "@
            + exit_code_text(exit_code) + ": "@ + stderr@,
        DownloadError::TimedOut(secs) => "yt-dlp timed out after "@ + decimal(secs as nat) + "s"@,
    }
}

impl DownloadError {
    pub fn message(&self) -> (r: String)
        ensures
            r@ == download_error_text(*self),
    {
        match self {
            DownloadError::Io(cause) => "I/O error: ".to_owned().concat(cause.as_str()),
            DownloadError::Failed { exit_code, stderr } => {
                let code = match exit_code {
                    Some(code) => "Some(".to_owned().concat(
                        to_signed_decimal(*code as i64).as_str(),
                    ).concat(")"),
                    None => "None".to_owned(),
                };
                "yt-dlp failed with exit code ".to_owned().concat(code.as_str()).concat(
                    ": ",
                ).concat(stderr.as_str())
            },
            DownloadError::TimedOut(secs) => "yt-dlp timed out after ".to_owned().concat(
                to_decimal(*secs).as_str(),
            ).concat("s"),
        }
    }
}

/// Turns an exit without success into an error with what was printed, trimmed.
pub fn check_exit_status(success: bool, exit_code: Option<i32>, stderr: &str) -> (r: Result<
    (),
    DownloadError,
>)
    ensures
        success ==> r is Ok,
        !success ==> (r matches Err(DownloadError::Failed { exit_code: code, stderr: text })
            && code == exit_code && text@ == trimmed(stderr@)),
{
    if success {
        Ok(())
    } else {
        Err(DownloadError::Failed { exit_code, stderr: trim(stderr).to_owned() })
    }
}

/// The command line that runs a program, under `nice` where that is to be had.
pub open spec fn nice_command_line(program: Seq<char>, nice_available: bool) -> Seq<Seq<char>> {
    if nice_available {
        seq!["nice"@, "-n"@, "19"@, program]
    } else {
        seq![program]
    }
}

/// The command line that runs `program` with low priority; without `nice` it runs all the
/// same.
pub fn nice_command(program: &str, nice_available: bool) -> (r: Vec<String>)
    ensures
        texts(r@) == nice_command_line(program@, nice_available),
{
    if nice_available {
        let r = owned(&["nice", "-n", "19", program]);
        assert(texts(r@) =~= nice_command_line(program@, nice_available));
        r
    } else {
        let r = owned(&[program]);
        assert(texts(r@) =~= nice_command_line(program@, nice_available));
        r
    }
}

/// The browser whose cookies the downloader uses.
pub fn cookies_browser(value: Option<String>) -> (r: String)
    ensures
        r@ == match value {
            Some(browser) => browser@,
            None => "chromium"@,
        },
{
    match value {
        Some(browser) => browser,
        None => "chromium".to_owned(),
    }
}

/// The downloader's arguments for a video with its chapters, info and thumbnail.
pub open spec fn media_arguments(
    browser: Seq<char>,
    template: Seq<char>,
    url: Seq<char>,
) -> Seq<Seq<char>> {
    seq![
        "--cookies-from-browser"@,
        browser,
        "-f"@,
        "bestvideo[height<=720]+bestaudio/best[height<=720]"@,
        "--add-metadata"@,
        "--embed-chapters"@,
        "--write-info-json"@,
        "--embed-info-json"@,
        "--write-thumbnail"@,
        "--embed-thumbnail"@,
        "--merge-output-format"@,
        "mkv"@,
        "--remux-video"@,
        "mkv"@,
        "-o"@,
        template,
        "--no-playlist"@,
        "--no-warnings"@,
        url,
    ]
}

/// The downloader's arguments for a video's subtitles.
pub open spec fn subtitle_arguments(
    browser: Seq<char>,
    template: Seq<char>,
    url: Seq<char>,
) -> Seq<Seq<char>> {
    seq![
        "--cookies-from-browser"@,
        browser,
        "--write-subs"@,
        "--write-auto-subs"@,
        "--sub-langs"@,
        "en.*,en,-live_chat"@,
        "--convert-subs"@,
        "vtt"@,
        "--skip-download"@,
        "-o"@,
        template,
        "--no-playlist"@,
        "--no-warnings"@,
        url,
    ]
}

/// The downloader's arguments for a video's audio track as a tagged file.
pub open spec fn audio_arguments(
    browser: Seq<char>,
    output_dir: Seq<char>,
    url: Seq<char>,
) -> Seq<Seq<char>> {
    seq![
        "--cookies-from-browser"@,
        browser,
        "-x"@,
        "--audio-format"@,
        "mp3"@,
        "--audio-quality"@,
        "256K"@,
        "--embed-thumbnail"@,
        "--embed-metadata"@,
        "--parse-metadata"@,
        "%(title)s:%(meta_title)s"@,
        "--parse-metadata"@,
        "%(uploader)s:%(meta_artist)s"@,
        "-o"@,
        joined_path(output_dir, "%(title)s.%(ext)s"@),
        url,
    ]
}

/// The downloader's arguments that print what is known of a video.
pub open spec fn info_arguments(url: Seq<char>) -> Seq<Seq<char>> {
    seq![
        "--dump-single-json"@,
        "--skip-download"@,
        "--extractor-retries"@,
        "3"@,
        "--retries"@,
        "3"@,
        "--no-playlist"@,
        "--no-warnings"@,
        url,
    ]
}

/// The two runs of the downloader that fetch a video: first the media, then the subtitles.
/// Subtitles are fetched apart, so that a refusal of them does not spoil the download.
#[derive(Debug)]
pub struct DownloadCommands {
    pub media: Vec<String>,
    pub subtitles: Vec<String>,
}

/// The runs of the downloader that fetch the video at `url` to `output_path`.
pub fn download_commands(cookies_browser: &str, output_path: &str, url: &str) -> (r:
    DownloadCommands)
    ensures
        texts(r.media@) == media_arguments(
            cookies_browser@,
            with_extension_of(output_path@, "%(ext)s"@),
            url@,
        ),
        texts(r.subtitles@) == subtitle_arguments(
            cookies_browser@,
            with_extension_of(output_path@, "%(ext)s"@),
            url@,
        ),
{
    proof {
        reveal_strlit("%(ext)s");
    }
    let output_template = with_extension(output_path, "%(ext)s");
    let template = output_template.as_str();
    let media = owned(
        &[
            "--cookies-from-browser",
            cookies_browser,
            "-f",
            "bestvideo[height<=720]+bestaudio/best[height<=720]",
            "--add-metadata",
            "--embed-chapters",
            "--write-info-json",
            "--embed-info-json",
            "--write-thumbnail",
            "--embed-thumbnail",
            "--merge-output-format",
            "mkv",
            "--remux-video",
            "mkv",
            "-o",
            template,
            "--no-playlist",
            "--no-warnings",
            url,
        ],
    );
    assert(texts(media@) =~= media_arguments(cookies_browser@, template@, url@));
    let subtitles = owned(
        &[
            "--cookies-from-browser",
            cookies_browser,
            "--write-subs",
            "--write-auto-subs",
            "--sub-langs",
            "en.*,en,-live_chat",
            "--convert-subs",
            "vtt",
            "--skip-download",
            "-o",
            template,
            "--no-playlist",
            "--no-warnings",
            url,
        ],
    );
    assert(texts(subtitles@) =~= subtitle_arguments(cookies_browser@, template@, url@));
    DownloadCommands { media, subtitles }
}

/// What the two runs that fetch a video amount to: the run for the media decides. That for the
/// subtitles may fail, whether it ended without success or could not be run at all.
pub fn finish_download(media: Result<(), DownloadError>, subtitles: Result<bool, String>) -> (r:
    Result<(), DownloadError>)
    ensures
        media is Ok ==> r is Ok,
        media matches Err(error) ==> r == Err::<(), DownloadError>(error),
{
    match (media, subtitles) {
        (Ok(()), _) => Ok(()),
        (Err(error), _) => Err(error),
    }
}

/// The downloader's arguments for the audio track of the video at `url`.
pub fn audio_export_args(cookies_browser: &str, output_dir: &str, url: &str) -> (r: Vec<String>)
    ensures
        texts(r@) == audio_arguments(cookies_browser@, output_dir@, url@),
{
    let output = join_path(output_dir, "%(title)s.%(ext)s");
    let r = owned(
        &[
            "--cookies-from-browser",
            cookies_browser,
            "-x",
            "--audio-format",
            "mp3",
            "--audio-quality",
            "256K",
            "--embed-thumbnail",
            "--embed-metadata",
            "--parse-metadata",
            "%(title)s:%(meta_title)s",
            "--parse-metadata",
            "%(uploader)s:%(meta_artist)s",
            "-o",
            output.as_str(),
            url,
        ],
    );
    assert(texts(r@) =~= audio_arguments(cookies_browser@, output_dir@, url@));
    r
}

/// The downloader's arguments that print what is known of the video at `url`.
pub fn fetch_info_json(url: &str) -> (r: Vec<String>)
    ensures
        texts(r@) == info_arguments(url@),
{
    let r = owned(
        &[
            "--dump-single-json",
            "--skip-download",
            "--extractor-retries",
            "3",
            "--retries",
            "3",
            "--no-playlist",
            "--no-warnings",
            url,
        ],
    );
    assert(texts(r@) =~= info_arguments(url@));
    r
}

/// Where audio tracks go: the directory for downloads, or `Downloads` in the home directory.
pub fn downloads_dir(download_dir: Option<String>, home_dir: &str) -> (r: String)
    ensures
        r@ == match download_dir {
            Some(dir) => dir@,
            None => joined_path(home_dir@, "Downloads"@),
        },
{
    match download_dir {
        Some(dir) => dir,
        None => join_path(home_dir, "Downloads"),
    }
}

/// Whether an option stands among arguments with a value behind it.
pub open spec fn sets(args: Seq<Seq<char>>, option: Seq<char>, value: Seq<char>) -> bool {
    exists|i: int| 0 <= i && i + 1 < args.len() && #[trigger] args[i] == option && args[i + 1]
        == value
}

/// The run for the media fetches the video, as an MKV file no higher than 720 lines with its
/// chapters, info and thumbnail, to the template: it does not skip the download.
pub proof fn media_runs_fetch_the_video(browser: Seq<char>, template: Seq<char>, url: Seq<char>)
    ensures
        ({
            let args = media_arguments(browser, template, url);
            &&& args.len() == 19
            &&& browser != "--skip-download"@ && template != "--skip-download"@ && url
                != "--skip-download"@ ==> !args.contains("--skip-download"@)
            &&& sets(args, "--cookies-from-browser"@, browser)
            &&& sets(args, "-f"@, "bestvideo[height<=720]+bestaudio/best[height<=720]"@)
            &&& args.contains("--add-metadata"@)
            &&& args.contains("--embed-chapters"@)
            &&& args.contains("--write-info-json"@)
            &&& args.contains("--embed-info-json"@)
            &&& args.contains("--write-thumbnail"@)
            &&& args.contains("--embed-thumbnail"@)
            &&& sets(args, "--merge-output-format"@, "mkv"@)
            &&& sets(args, "--remux-video"@, "mkv"@)
            &&& sets(args, "-o"@, template)
            &&& args.contains("--no-playlist"@)
            &&& args.contains("--no-warnings"@)
            &&& args.last() == url
        }),
{
    let args = media_arguments(browser, template, url);
    assert(args[0] == "--cookies-from-browser"@ && args[1] == browser);
    assert(args[2] == "-f"@ && args[3]
        == "bestvideo[height<=720]+bestaudio/best[height<=720]"@);
    assert(args[4] == "--add-metadata"@ && args[5] == "--embed-chapters"@ && args[6]
        == "--write-info-json"@ && args[7] == "--embed-info-json"@ && args[8]
        == "--write-thumbnail"@ && args[9] == "--embed-thumbnail"@);
    assert(args[10] == "--merge-output-format"@ && args[11] == "mkv"@);
    assert(args[12] == "--remux-video"@ && args[13] == "mkv"@);
    assert(args[14] == "-o"@ && args[15] == template);
    assert(args[16] == "--no-playlist"@ && args[17] == "--no-warnings"@);
    reveal_strlit("--skip-download");
    reveal_strlit("--cookies-from-browser");
    reveal_strlit("-f");
    reveal_strlit("bestvideo[height<=720]+bestaudio/best[height<=720]");
    reveal_strlit("--add-metadata");
    reveal_strlit("--embed-chapters");
    reveal_strlit("--write-info-json");
    reveal_strlit("--embed-info-json");
    reveal_strlit("--write-thumbnail");
    reveal_strlit("--embed-thumbnail");
    reveal_strlit("--merge-output-format");
    reveal_strlit("mkv");
    reveal_strlit("--remux-video");
    reveal_strlit("-o");
    reveal_strlit("--no-playlist");
    reveal_strlit("--no-warnings");
    let skip = "--skip-download"@;
    assert(skip[2] == 's' && skip.len() == 15);
    assert("--add-metadata"@[2] == 'a' && "--embed-chapters"@[2] == 'e' && "--write-info-json"@[2]
        == 'w' && "--embed-info-json"@[2] == 'e' && "--write-thumbnail"@[2] == 'w'
        && "--embed-thumbnail"@[2] == 'e' && "--merge-output-format"@[2] == 'm'
        && "--remux-video"@[2] == 'r' && "--no-playlist"@[2] == 'n' && "--no-warnings"@[2] == 'n'
        && "--cookies-from-browser"@[2] == 'c'
        && "bestvideo[height<=720]+bestaudio/best[height<=720]"@[2] == 's');
    assert("bestvideo[height<=720]+bestaudio/best[height<=720]"@[0] == 'b' && skip[0] == '-');
}

/// The run for the subtitles fetches English ones as `vtt` files to the template, and not the
/// video.
pub proof fn subtitle_runs_skip_the_video(browser: Seq<char>, template: Seq<char>, url: Seq<char>)
    ensures
        ({
            let args = subtitle_arguments(browser, template, url);
            &&& args.len() == 14
            &&& args.contains("--skip-download"@)
            &&& sets(args, "--cookies-from-browser"@, browser)
            &&& args.contains("--write-subs"@)
            &&& args.contains("--write-auto-subs"@)
            &&& sets(args, "--sub-langs"@, "en.*,en,-live_chat"@)
            &&& sets(args, "--convert-subs"@, "vtt"@)
            &&& sets(args, "-o"@, template)
            &&& args.contains("--no-playlist"@)
            &&& args.contains("--no-warnings"@)
            &&& args.last() == url
        }),
{
    let args = subtitle_arguments(browser, template, url);
    assert(args[0] == "--cookies-from-browser"@ && args[1] == browser);
    assert(args[2] == "--write-subs"@ && args[3] == "--write-auto-subs"@);
    assert(args[4] == "--sub-langs"@ && args[5] == "en.*,en,-live_chat"@);
    assert(args[6] == "--convert-subs"@ && args[7] == "vtt"@);
    assert(args[8] == "--skip-download"@);
    assert(args[9] == "-o"@ && args[10] == template);
    assert(args[11] == "--no-playlist"@ && args[12] == "--no-warnings"@);
}

/// The two runs for a video write beside each other: to the output path with the extension
/// that the downloader fills in.
pub proof fn both_runs_write_to_one_place(
    browser: Seq<char>,
    dir: Seq<char>,
    stem: Seq<char>,
    url: Seq<char>,
)
    requires
        dir.len() > 0 ==> dir.last() == '/',
        stem.len() > 0,
        !stem.contains('/'),
    ensures
        sets(
            media_arguments(browser, with_extension_of(dir + stem + ".mkv"@, "%(ext)s"@), url),
            "-o"@,
            dir + stem + ".%(ext)s"@,
        ),
        sets(
            subtitle_arguments(browser, with_extension_of(dir + stem + ".mkv"@, "%(ext)s"@), url),
            "-o"@,
            dir + stem + ".%(ext)s"@,
        ),
{
    reveal_strlit("mkv");
    reveal_strlit(".mkv");
    reveal_strlit("%(ext)s");
    reveal_strlit(".%(ext)s");
    assert(dir + stem + ".mkv"@ =~= dir + stem + seq!['.'] + "mkv"@);
    assert(dir + stem + ".%(ext)s"@ =~= dir + stem + seq!['.'] + "%(ext)s"@);
    extensions_are_exchanged(dir, stem, "mkv"@, "%(ext)s"@);
    media_runs_fetch_the_video(browser, dir + stem + ".%(ext)s"@, url);
    subtitle_runs_skip_the_video(browser, dir + stem + ".%(ext)s"@, url);
}

/// The run for an audio track makes a tagged MP3 file in a directory, named by its title.
pub proof fn audio_runs_make_tagged_files(
    browser: Seq<char>,
    output_dir: Seq<char>,
    url: Seq<char>,
)
    ensures
        ({
            let args = audio_arguments(browser, output_dir, url);
            &&& args.len() == 16
            &&& sets(args, "--cookies-from-browser"@, browser)
            &&& args.contains("-x"@)
            &&& sets(args, "--audio-format"@, "mp3"@)
            &&& sets(args, "--audio-quality"@, "256K"@)
            &&& args.contains("--embed-thumbnail"@)
            &&& args.contains("--embed-metadata"@)
            &&& sets(args, "--parse-metadata"@, "%(title)s:%(meta_title)s"@)
            &&& sets(args, "--parse-metadata"@, "%(uploader)s:%(meta_artist)s"@)
            &&& output_dir.len() > 0 && output_dir.last() != '/' ==> sets(
                args,
                "-o"@,
                output_dir + "/%(title)s.%(ext)s"@,
            )
            &&& args.last() == url
        }),
{
    let args = audio_arguments(browser, output_dir, url);
    assert(args[0] == "--cookies-from-browser"@ && args[1] == browser);
    assert(args[2] == "-x"@);
    assert(args[3] == "--audio-format"@ && args[4] == "mp3"@);
    assert(args[5] == "--audio-quality"@ && args[6] == "256K"@);
    assert(args[7] == "--embed-thumbnail"@ && args[8] == "--embed-metadata"@);
    assert(args[9] == "--parse-metadata"@ && args[10] == "%(title)s:%(meta_title)s"@);
    assert(args[11] == "--parse-metadata"@ && args[12] == "%(uploader)s:%(meta_artist)s"@);
    assert(args[13] == "-o"@);
    reveal_strlit("/%(title)s.%(ext)s");
    reveal_strlit("%(title)s.%(ext)s");
    reveal_strlit("/");
    if output_dir.len() > 0 && output_dir.last() != '/' {
        assert(args[14] =~= output_dir + "/%(title)s.%(ext)s"@);
    }
}

/// The run for what is known of a video prints it as one JSON value and fetches nothing else.
pub proof fn info_runs_print_only(url: Seq<char>)
    ensures
        ({
            let args = info_arguments(url);
            &&& args.len() == 9
            &&& args.contains("--dump-single-json"@)
            &&& args.contains("--skip-download"@)
            &&& sets(args, "--extractor-retries"@, "3"@)
            &&& sets(args, "--retries"@, "3"@)
            &&& args.contains("--no-playlist"@)
            &&& args.contains("--no-warnings"@)
            &&& args.last() == url
        }),
{
    let args = info_arguments(url);
    assert(args[0] == "--dump-single-json"@ && args[1] == "--skip-download"@);
    assert(args[2] == "--extractor-retries"@ && args[3] == "3"@);
    assert(args[4] == "--retries"@ && args[5] == "3"@);
    assert(args[6] == "--no-playlist"@ && args[7] == "--no-warnings"@);
}

/// A program runs with the lowest priority where `nice` is to be had, and runs alone otherwise.
pub proof fn programs_run_nicely(program: Seq<char>)
    ensures
        nice_command_line(program, false) == seq![program],
        nice_command_line(program, true).first() == "nice"@,
        sets(nice_command_line(program, true), "-n"@, "19"@),
        nice_command_line(program, true).last() == program,
        nice_command_line(program, true).len() == 4,
{
    let line = nice_command_line(program, true);
    assert(line[1] == "-n"@ && line[2] == "19"@);
}

/// A run that failed is told with its exit code, if it has one, and what it wrote; one that
/// took too long with how long it was given.
pub proof fn failed_runs_are_told(cause: String, code: i32, stderr: String, secs: u64)
    ensures
        download_error_text(DownloadError::Io(cause)) == "I/O error: "@ + cause@,
        download_error_text(DownloadError::Failed { exit_code: Some(code), stderr })
            == "yt-dlp failed with exit code Some("@ + signed_decimal(code as int) + "): "@
            + stderr@,
        download_error_text(DownloadError::Failed { exit_code: None, stderr })
            == "yt-dlp failed with exit code None: "@ + stderr@,
        download_error_text(DownloadError::TimedOut(secs)) == "yt-dlp timed out after "@ + decimal(
            secs as nat,
        ) + "s"@,
{
    reveal_strlit("yt-dlp failed with exit code ");
    reveal_strlit("yt-dlp failed with exit code Some(");
    reveal_strlit("yt-dlp failed with exit code None: ");
    reveal_strlit("Some(");
    reveal_strlit("None");
    reveal_strlit(")");
    reveal_strlit(": ");
    reveal_strlit("): ");
    assert("yt-dlp failed with exit code "@ + "Some("@ =~= "yt-dlp failed with exit code Some("@);
    assert(")"@ + ": "@ =~= "): "@);
    assert("yt-dlp failed with exit code "@ + "None"@ + ": "@
        =~= "yt-dlp failed with exit code None: "@);
    assert("yt-dlp failed with exit code "@ + ("Some("@ + signed_decimal(code as int) + ")"@)
        + ": "@ + stderr@ =~= "yt-dlp failed with exit code Some("@ + signed_decimal(code as int)
        + "): "@ + stderr@);
}

} // verus!
