//! Playback: the player's command lines, its messages, and whether a video was watched.

pub mod chapters;

use crate::text::{
    contains, decimal, has_text, opt_text, owned, push_decimal, same, texts,
    texts_hold_what_stands_in_them,
};
use crate::urls;
use vstd::prelude::*;

verus! {

/// How soon the player ends when nothing could be played, in milliseconds.
pub const IMMEDIATE_FAILURE_WINDOW_MS: u64 = 10_000;

/// The bits of the double `10.0`: the position, in seconds, from which on a video counts as
/// watched.
pub const WATCHED_MIN_PLAYBACK_BITS: u64 = 0x4024_0000_0000_0000;

/// Errors of playback.
#[derive(Debug)]
pub enum PlayerError {
    /// The player could not be started.
    Spawn(String),
}

impl PlayerError {
    pub fn message(&self) -> (r: String)
        ensures
            r@ == match *self {
                PlayerError::Spawn(cause) => "failed to spawn mpv: "@ + cause@,
            },
    {
        match self {
            PlayerError::Spawn(cause) => "failed to spawn mpv: ".to_owned().concat(cause.as_str()),
        }
    }
}

/// How playback ended.
#[derive(Debug, Clone, Copy, PartialEq, Eq, Structural)]
pub enum PlaybackEnd {
    /// It went on for long enough.
    Watched,
    /// It ended at once: nothing was really played.
    FailedImmediately,
}

/// The player's arguments for a video with a title.
pub open spec fn base_arguments(title: Seq<char>) -> Seq<Seq<char>> {
    seq![
        "--title="@ + title,
        "--force-media-title="@ + title,
        "--sub-auto=fuzzy"@,
        "--sid=auto"@,
    ]
}

/// The player's arguments for a video that is streamed, in no more than 720 lines.
pub open spec fn stream_arguments(url: Seq<char>, title: Seq<char>) -> Seq<Seq<char>> {
    base_arguments(title) + seq!["--ytdl-format=bv*[height<=720]+ba/b[height<=720]"@, url]
}

/// The player's arguments for a local file, with its chapters where there are some.
pub open spec fn local_arguments(
    path: Seq<char>,
    title: Seq<char>,
    chapters_file: Option<Seq<char>>,
) -> Seq<Seq<char>> {
    match chapters_file {
        Some(file) => base_arguments(title) + seq!["--chapters-file="@ + file, path],
        None => base_arguments(title) + seq![path],
    }
}

/// The player's arguments for a video with a title.
pub fn mpv_base_command(title: &str) -> (args: Vec<String>)
    ensures
        texts(args@) == base_arguments(title@),
{
    let window = "--title=".to_owned().concat(title);
    let media = "--force-media-title=".to_owned().concat(title);
    let args = owned(&[window.as_str(), media.as_str(), "--sub-auto=fuzzy", "--sid=auto"]);
    assert(texts(args@) =~= base_arguments(title@));
    args
}

/// The player's arguments for a video that is streamed from `url`.
pub fn stream_command(url: &str, title: &str) -> (args: Vec<String>)
    ensures
        texts(args@) == stream_arguments(url@, title@),
{
    let mut args = mpv_base_command(title);
    args.push("--ytdl-format=bv*[height<=720]+ba/b[height<=720]".to_owned());
    args.push(url.to_owned());
    assert(texts(args@) =~= stream_arguments(url@, title@));
    args
}

/// A file to play, and its chapters where there are some.
#[derive(Debug)]
pub struct LocalVideo {
    pub path: String,
    pub chapters_file: Option<String>,
}

/// The player's arguments for a video: the local file where there is one, else a stream.
pub fn play_video(video_id: &str, title: &str, local: Option<&LocalVideo>) -> (args: Vec<String>)
    ensures
        texts(args@) == match local {
            Some(file) => local_arguments(file.path@, title@, opt_text(file.chapters_file)),
            None => stream_arguments(urls::spec_watch_url(video_id@), title@),
        },
{
    match local {
        Some(file) => {
            let mut args = mpv_base_command(title);
            if let Some(chapters_file) = &file.chapters_file {
                args.push("--chapters-file=".to_owned().concat(chapters_file.as_str()));
            }
            args.push(file.path.clone());
            assert(texts(args@) =~= local_arguments(
                file.path@,
                title@,
                opt_text(file.chapters_file),
            ));
            args
        },
        None => stream_command(urls::watch_url(video_id).as_str(), title),
    }
}

/// The name of the socket that a player is asked through.
pub open spec fn socket_name(process: u32, player: u64) -> Seq<char> {
    "yt-gtk-mpv-"@ + decimal(process as nat) + "-"@ + decimal(player as nat) + ".sock"@
}

/// A socket's name of its own for each player that a process runs.
pub fn ipc_socket_name(process: u32, player: u64) -> (name: String)
    ensures
        name@ == socket_name(process, player),
{
    let mut name = "yt-gtk-mpv-".to_owned();
    push_decimal(&mut name, process as u64);
    name.append("-");
    push_decimal(&mut name, player);
    name.append(".sock");
    assert(name@ =~= socket_name(process, player));
    name
}

/// Players that run at the same time have different sockets.
pub proof fn socket_names_differ(process: u32, first: u64, second: u64)
    requires
        first != second,
    ensures
        socket_name(process, first) != socket_name(process, second),
{
    let start = "yt-gtk-mpv-"@ + decimal(process as nat) + "-"@;
    let (a, b) = (socket_name(process, first), socket_name(process, second));
    let end = ".sock"@.len();
    if a == b {
        assert(a.len() == b.len());
        assert(a.subrange(start.len() as int, a.len() - end) =~= decimal(first as nat));
        assert(b.subrange(start.len() as int, b.len() - end) =~= decimal(second as nat));
        crate::text::decimal_is_injective(first as nat, second as nat);
    }
}

/// The player's argument that opens a socket.
pub fn ipc_argument(socket_path: &str) -> (r: String)
    ensures
        r@ == "--input-ipc-server="@ + socket_path@,
{
    "--input-ipc-server=".to_owned().concat(socket_path)
}

/// What `str::to_lowercase` makes of a text.
pub uninterp spec fn lowercase(text: Seq<char>) -> Seq<char>;

/// Calls `str::to_lowercase`. The result is a function of the text.
#[verifier::external_body]
fn to_lowercase(text: &str) -> (r: String)
    ensures
        r@ == lowercase(text@),
{
    text.to_lowercase()
}

/// Whether a message in lower case says that nothing could be played.
pub open spec fn tells_open_failure(lower: Seq<char>) -> bool {
    has_text(lower, "failed to open"@) || has_text(lower, "errors when loading file"@) || has_text(
        lower,
        "failed to recognize file format"@,
    )
}

/// Whether a message in lower case says that nothing could be played.
pub fn mentions_open_failure(lower: &str) -> (r: bool)
    ensures
        r == tells_open_failure(lower@),
{
    contains(lower, "failed to open") || contains(lower, "errors when loading file") || contains(
        lower,
        "failed to recognize file format",
    )
}

/// Whether a message of the player says that nothing could be played.
pub fn is_fatal_open_failure(line: &str) -> (r: bool)
    ensures
        r == tells_open_failure(lowercase(line@)),
{
    mentions_open_failure(to_lowercase(line).as_str())
}

/// The string that the field `key` of the object in a JSON text holds.
pub uninterp spec fn json_string_field(json: Seq<char>, key: Seq<char>) -> Option<Seq<char>>;

/// Calls `serde_json::from_str` for a `serde_json::Value`, and `get` and `as_str` of it. The
/// result is a function of the two texts.
#[verifier::external_body]
fn string_field(json: &str, key: &str) -> (r: Option<String>)
    ensures
        opt_text(r) == json_string_field(json@, key@),
{
    let value: serde_json::Value = serde_json::from_str(json).ok()?;
    Some(value.get(key)?.as_str()?.to_owned())
}

/// The bits of the double that the field `key` of the object in a JSON text holds.
pub uninterp spec fn json_double_field(json: Seq<char>, key: Seq<char>) -> Option<u64>;

/// Calls `serde_json::from_str` for a `serde_json::Value`, and `get` and `as_f64` of it. The
/// result is a function of the two texts.
#[verifier::external_body]
fn double_field(json: &str, key: &str) -> (r: Option<u64>)
    ensures
        r == json_double_field(json@, key@),
{
    let value: serde_json::Value = serde_json::from_str(json).ok()?;
    Some(value.get(key)?.as_f64()?.to_bits())
}

/// The position that a reply tells, given its two fields: only a success tells one.
pub open spec fn position_in_reply(error: Option<Seq<char>>, data: Option<u64>) -> Option<u64> {
    if error == Some("success"@) {
        data
    } else {
        None
    }
}

/// The position that a reply tells, given its two fields.
pub fn reply_position(error: Option<String>, data: Option<u64>) -> (r: Option<u64>)
    ensures
        r == position_in_reply(opt_text(error), data),
{
    match error {
        Some(text) => if same(text.as_str(), "success") {
            data
        } else {
            None
        },
        None => None,
    }
}

/// The position that a line from the player tells, as the bits of a double.
pub fn playback_time_from_ipc_line(line: &str) -> (r: Option<u64>)
    ensures
        r == position_in_reply(
            json_string_field(line@, "error"@),
            json_double_field(line@, "data"@),
        ),
{
    let error = string_field(line, "error");
    let data = double_field(line, "data");
    reply_position(error, data)
}

/// The later of two positions. Doubles without a sign are ordered like their bits; a position
/// with one, which is before the start, is none.
pub open spec fn later_of(latest: u64, position: u64) -> u64 {
    if position < 0x8000_0000_0000_0000 && position > latest {
        position
    } else {
        latest
    }
}

/// The later of the latest position, which is not before the start, and another one.
pub fn later_position(latest: u64, position: u64) -> (r: u64)
    requires
        latest < 0x8000_0000_0000_0000,
    ensures
        r == later_of(latest, position),
        r < 0x8000_0000_0000_0000,
{
    if position < 0x8000_0000_0000_0000 && position > latest {
        position
    } else {
        latest
    }
}

/// How playback ended: by the latest position that the player told; where it told none, by
/// its messages and how soon it ended.
pub open spec fn end_of_playback(
    observed: Option<u64>,
    fatal_line_seen: bool,
    elapsed_ms: u64,
) -> PlaybackEnd {
    match observed {
        Some(latest) => if latest >= WATCHED_MIN_PLAYBACK_BITS {
            PlaybackEnd::Watched
        } else {
            PlaybackEnd::FailedImmediately
        },
        None => if fatal_line_seen || elapsed_ms <= IMMEDIATE_FAILURE_WINDOW_MS {
            PlaybackEnd::FailedImmediately
        } else {
            PlaybackEnd::Watched
        },
    }
}

/// How playback ended. The latest position is the bits of a double without a sign; the time
/// that playback took is in milliseconds, rounded up.
pub fn playback_end(observed: Option<u64>, fatal_line_seen: bool, elapsed_ms: u64) -> (r:
    PlaybackEnd)
    ensures
        r == end_of_playback(observed, fatal_line_seen, elapsed_ms),
{
    match observed {
        Some(latest) => if latest >= WATCHED_MIN_PLAYBACK_BITS {
            PlaybackEnd::Watched
        } else {
            PlaybackEnd::FailedImmediately
        },
        None => if fatal_line_seen || elapsed_ms <= IMMEDIATE_FAILURE_WINDOW_MS {
            PlaybackEnd::FailedImmediately
        } else {
            PlaybackEnd::Watched
        },
    }
}

/// A player is told the title twice, once for the window and once for the media, looks for
/// subtitles, and plays what comes last. A stream is fetched in no more than 720 lines; a local
/// file gets its chapters where there are some.
pub proof fn players_are_told_what_to_play(
    source: Seq<char>,
    title: Seq<char>,
    chapters: Seq<char>,
)
    ensures
        ({
            let streamed = stream_arguments(source, title);
            let local = local_arguments(source, title, None);
            let with_chapters = local_arguments(source, title, Some(chapters));
            &&& streamed.len() == 6 && local.len() == 5 && with_chapters.len() == 6
            &&& streamed.take(4) == local.take(4) && with_chapters.take(4) == local.take(4)
            &&& local[0] == "--title="@ + title
            &&& local[1] == "--force-media-title="@ + title
            &&& local[2] == "--sub-auto=fuzzy"@
            &&& local[3] == "--sid=auto"@
            &&& streamed[4] == "--ytdl-format=bv*[height<=720]+ba/b[height<=720]"@
            &&& with_chapters[4] == "--chapters-file="@ + chapters
            &&& streamed.last() == source && local.last() == source && with_chapters.last()
                == source
        }),
{
    let first = base_arguments(title);
    assert(stream_arguments(source, title).take(4) =~= first);
    assert(local_arguments(source, title, None).take(4) =~= first);
    assert(local_arguments(source, title, Some(chapters)).take(4) =~= first);
}

/// A socket's name tells the process and the player.
pub proof fn sockets_are_named_after_their_player(process: u32, player: u64)
    ensures
        socket_name(process, player) == "yt-gtk-mpv-"@ + decimal(process as nat) + "-"@ + decimal(
            player as nat,
        ) + ".sock"@,
{
}

/// A message tells that nothing could be played where it holds one of three phrases, whatever
/// stands around it, and only there.
pub proof fn open_failures_are_told_by_their_phrases(
    front: Seq<char>,
    back: Seq<char>,
    message: Seq<char>,
)
    ensures
        tells_open_failure(front + "failed to open"@ + back),
        tells_open_failure(front + "errors when loading file"@ + back),
        tells_open_failure(front + "failed to recognize file format"@ + back),
        tells_open_failure(message) ==> has_text(message, "failed to open"@) || has_text(
            message,
            "errors when loading file"@,
        ) || has_text(message, "failed to recognize file format"@),
{
    texts_hold_what_stands_in_them(front, "failed to open"@, back, message);
    texts_hold_what_stands_in_them(front, "errors when loading file"@, back, message);
    texts_hold_what_stands_in_them(front, "failed to recognize file format"@, back, message);
}

/// Only a reply that tells a success tells a position: the one that it holds.
pub proof fn positions_come_from_successes(error: Seq<char>, data: Option<u64>)
    ensures
        position_in_reply(Some("success"@), data) == data,
        error != "success"@ ==> position_in_reply(Some(error), data) is None,
        position_in_reply(None, data) is None,
{
}

/// The latest position never goes back, and it is one of those that were told; one before the
/// start does not count.
pub proof fn the_latest_position_stays(latest: u64, position: u64)
    requires
        latest < 0x8000_0000_0000_0000,
    ensures
        later_of(latest, position) >= latest,
        later_of(latest, position) == latest || later_of(latest, position) == position,
        position < 0x8000_0000_0000_0000 ==> later_of(latest, position) >= position,
        position >= 0x8000_0000_0000_0000 ==> later_of(latest, position) == latest,
{
}

/// A video counts as watched from ten seconds of playback on. Where the player told no
/// position, it counts where playback took more than ten seconds and no message says that
/// nothing could be played.
pub proof fn videos_count_as_watched_from_ten_seconds_on(
    position: u64,
    fatal_line_seen: bool,
    elapsed_ms: u64,
)
    ensures
        end_of_playback(Some(position), fatal_line_seen, elapsed_ms) == PlaybackEnd::Watched
            <==> position >= 0x4024_0000_0000_0000,
        end_of_playback(None, fatal_line_seen, elapsed_ms) == PlaybackEnd::Watched <==> (
        !fatal_line_seen && elapsed_ms > 10_000),
{
}

} // verus!
