//! Transcripts from subtitles.

use crate::cache::storage::{lemma_trimmed, lemma_trimmed_identity};
use crate::cache::downloader::sets;
use crate::paths::{
    extension, extension_of, join_path, joined_path, lemma_last_position, lemma_name_with_extension,
};
use crate::text::{
    chars_of, contains, decimal, decimal_is_injective, has_text, is_whitespace, join, joined,
    lemma_lines_have_no_feed, lemma_split_joined, lemma_trimmed_within, lines, lines_of, opt_text,
    owned, push_decimal, same, split_at, starts_with, texts, trim, trimmed,
};
use vstd::prelude::*;

verus! {

/// Errors of transcripts.
#[derive(Debug)]
pub enum TranscriptError {
    /// A file could not be read or written.
    Io(String),
    /// Subtitles could not be parsed.
    Json(String),
    /// The downloader fetched no subtitles.
    SubtitleFetchFailed,
    /// The downloader left no subtitle file.
    SubtitleFileNotFound { video_id: String },
    /// The subtitles hold no events.
    MissingSubtitleEvents,
}

pub open spec fn transcript_error_text(error: TranscriptError) -> Seq<char> {
    match error {
        TranscriptError::Io(cause) => "I/O error: "@ + cause@,
        TranscriptError::Json(cause) => "JSON parse error: "@ + cause@,
        TranscriptError::SubtitleFetchFailed => "yt-dlp failed to fetch subtitles"@,
        TranscriptError::SubtitleFileNotFound { video_id } => "no subtitle file found for video "@
            + video_id@,
        TranscriptError::MissingSubtitleEvents => "subtitle payload does not contain events"@,
    }
}

impl TranscriptError {
    pub fn message(&self) -> (r: String)
        ensures
            r@ == transcript_error_text(*self),
    {
        match self {
            TranscriptError::Io(cause) => "I/O error: ".to_owned().concat(cause.as_str()),
            TranscriptError::Json(cause) => "JSON parse error: ".to_owned().concat(cause.as_str()),
            TranscriptError::SubtitleFetchFailed => "yt-dlp failed to fetch subtitles".to_owned(),
            TranscriptError::SubtitleFileNotFound {
                video_id,
            } => "no subtitle file found for video ".to_owned().concat(video_id.as_str()),
            TranscriptError::MissingSubtitleEvents =>
                "subtitle payload does not contain events".to_owned(),
        }
    }
}

/// Whether the end of a text lies inside an angle-bracketed tag.
pub open spec fn inside_tag(s: Seq<char>) -> bool
    decreases s.len(),
{
    if s.len() == 0 {
        false
    } else if s.last() == '<' {
        true
    } else if s.last() == '>' {
        false
    } else {
        inside_tag(s.drop_last())
    }
}

/// A text without what stands in angle brackets, and without the brackets.
pub open spec fn without_tags(s: Seq<char>) -> Seq<char>
    decreases s.len(),
{
    if s.len() == 0 {
        Seq::empty()
    } else if s.last() == '<' || s.last() == '>' || inside_tag(s.drop_last()) {
        without_tags(s.drop_last())
    } else {
        without_tags(s.drop_last()).push(s.last())
    }
}

/// Removes markup in angle brackets.
pub fn strip_vtt_tags(line: &str) -> (r: String)
    ensures
        r@ == without_tags(line@),
{
    let chars = chars_of(line);
    let mut stripped = String::new();
    let mut in_tag: bool = false;
    let mut i: usize = 0;
    while i < chars.len()
        invariant
            chars@ == line@,
            i <= chars.len(),
            in_tag == inside_tag(line@.take(i as int)),
            stripped@ == without_tags(line@.take(i as int)),
        decreases chars.len() - i,
    {
        assert(line@.take(i + 1).drop_last() =~= line@.take(i as int));
        let c = chars[i];
        if c == '<' {
            in_tag = true;
        } else if c == '>' {
            in_tag = false;
        } else if !in_tag {
            stripped.push(c);
        }
        i += 1;
    }
    assert(line@.take(line@.len() as int) =~= line@);
    stripped
}

/// The lines of a text, trimmed, without blank ones and without those that repeat the line
/// before them.
pub open spec fn distinct_lines(lines: Seq<Seq<char>>) -> Seq<Seq<char>>
    decreases lines.len(),
{
    if lines.len() == 0 {
        Seq::empty()
    } else {
        let before = distinct_lines(lines.drop_last());
        let line = trimmed(lines.last());
        if line.len() == 0 || (before.len() > 0 && before.last() == line) {
            before
        } else {
            before.push(line)
        }
    }
}

/// The text of a transcript: its distinct lines with a space between them.
pub open spec fn cleaned(text: Seq<char>) -> Seq<char> {
    joined(distinct_lines(lines_of(text)), " "@)
}

/// Makes one line of a transcript, leaving out lines that subtitles repeat.
pub fn clean_transcript(text: &str) -> (r: String)
    ensures
        r@ == cleaned(text@),
{
    let all_lines = lines(text);
    let ghost all = lines_of(text@);
    let mut kept: Vec<String> = Vec::new();
    let mut i: usize = 0;
    assert(texts(kept@) =~= distinct_lines(all.take(0)));
    while i < all_lines.len()
        invariant
            i <= all_lines.len(),
            texts(all_lines@) == all,
            texts(kept@) == distinct_lines(all.take(i as int)),
        decreases all_lines.len() - i,
    {
        let ghost before = texts(kept@);
        assert(all.take(i + 1).drop_last() =~= all.take(i as int));
        assert(all.take(i + 1).last() == all_lines@[i as int]@);
        let line = trim(all_lines[i].as_str());
        let repeated = if kept.len() > 0 {
            assert(before.last() == kept@[kept@.len() - 1]@);
            same(kept[kept.len() - 1].as_str(), line)
        } else {
            false
        };
        if !line.is_empty() && !repeated {
            kept.push(line.to_owned());
            assert(texts(kept@) =~= before.push(line@));
        }
        i += 1;
    }
    assert(all.take(all.len() as int) =~= all);
    join(&kept, " ")
}

/// No line of a cleaned transcript is blank or repeats the one before it.
pub proof fn cleaned_lines_do_not_repeat(lines: Seq<Seq<char>>)
    ensures
        forall|i: int|
            0 <= i < distinct_lines(lines).len() ==> (#[trigger] distinct_lines(lines)[i]).len()
                > 0,
        forall|i: int, j: int|
            #![trigger distinct_lines(lines)[i], distinct_lines(lines)[j]]
            0 <= i && j == i + 1 && j < distinct_lines(lines).len() ==> distinct_lines(lines)[i]
                != distinct_lines(lines)[j],
    decreases lines.len(),
{
    if lines.len() > 0 {
        cleaned_lines_do_not_repeat(lines.drop_last());
        let before = distinct_lines(lines.drop_last());
        let after = distinct_lines(lines);
        assert forall|i: int| 0 <= i < after.len() implies (#[trigger] after[i]).len() > 0 by {
            assert(i < before.len() ==> after[i] == before[i]);
        }
        assert forall|i: int, j: int|
            #![trigger after[i], after[j]]
            0 <= i && j == i + 1 && j < after.len() implies after[i] != after[j] by {
            assert(after[i] == before[i]);
            assert(j < before.len() ==> after[j] == before[j]);
        }
    }
}

proof fn lemma_distinct_lines(lines: Seq<Seq<char>>)
    requires
        forall|i: int| 0 <= i < lines.len() ==> !(#[trigger] lines[i]).contains('\n'),
    ensures
        forall|i: int|
            0 <= i < distinct_lines(lines).len() ==> is_clean_line(#[trigger] distinct_lines(lines)[i]),
    decreases lines.len(),
{
    if lines.len() > 0 {
        let rest = lines.drop_last();
        let line = lines.last();
        assert forall|i: int| 0 <= i < rest.len() implies !(#[trigger] rest[i]).contains('\n') by {
            assert(rest[i] == lines[i]);
        }
        lemma_distinct_lines(rest);
        assert(!lines[lines.len() - 1].contains('\n'));
        lemma_trimmed_within(line, '\n');
        lemma_trimmed(line);
        let before = distinct_lines(rest);
        let after = distinct_lines(lines);
        assert forall|i: int| 0 <= i < after.len() implies is_clean_line(#[trigger] after[i]) by {
            if i < before.len() {
                assert(after[i] == before[i]);
            }
        }
    }
}

/// Whether a text is one line, not empty, with no whitespace at its ends.
pub open spec fn is_clean_line(line: Seq<char>) -> bool {
    &&& line.len() > 0
    &&& !line.contains('\n')
    &&& !is_whitespace(line[0])
    &&& !is_whitespace(line.last())
}

proof fn lemma_joined_lines(lines: Seq<Seq<char>>)
    requires
        lines.len() > 0,
        forall|i: int| 0 <= i < lines.len() ==> is_clean_line(#[trigger] lines[i]),
    ensures
        is_clean_line(joined(lines, " "@)),
    decreases lines.len(),
{
    reveal_strlit(" ");
    let all = joined(lines, " "@);
    assert(is_clean_line(lines[lines.len() - 1]));
    if lines.len() > 1 {
        let rest = lines.drop_last();
        assert forall|i: int| 0 <= i < rest.len() implies is_clean_line(#[trigger] rest[i]) by {
            assert(rest[i] == lines[i]);
        }
        lemma_joined_lines(rest);
        let front = joined(rest, " "@);
        let last = lines.last();
        assert forall|k: int| 0 <= k < all.len() implies all[k] != '\n' by {
            if k < front.len() {
                assert(all[k] == front[k]);
                assert(front.contains(front[k]));
            } else if k > front.len() {
                assert(all[k] == last[k - front.len() - 1]);
                assert(last.contains(last[k - front.len() - 1]));
            }
        }
        assert(all[0] == front[0]);
        assert(all.last() == last.last());
    }
}

/// Cleaning a cleaned transcript changes nothing.
pub proof fn cleaning_is_idempotent(text: Seq<char>)
    ensures
        cleaned(cleaned(text)) == cleaned(text),
{
    let lines = distinct_lines(lines_of(text));
    let once = cleaned(text);
    lemma_lines_have_no_feed(text);
    lemma_distinct_lines(lines_of(text));
    if lines.len() == 0 {
        assert(split_at(once, '\n') =~= seq![once]);
        assert(lines_of(once) =~= Seq::<Seq<char>>::empty());
    } else {
        lemma_joined_lines(lines);
        let whole = seq![once];
        assert(!whole[0].contains('\n'));
        lemma_split_joined(whole, '\n');
        assert(lines_of(once) =~= whole);
        lemma_trimmed_identity(once);
        let none = Seq::<Seq<char>>::empty();
        assert(whole.drop_last() =~= none);
        assert(distinct_lines(none) =~= none);
        assert(distinct_lines(whole) =~= none.push(once));
        assert(distinct_lines(whole) =~= whole);
    }
}

/// Whether a line of a subtitle file is no speech: a heading, a note or a time.
pub open spec fn is_vtt_metadata(line: Seq<char>) -> bool {
    let line = trimmed(line);
    has_text(line, "-->"@) || line == "WEBVTT"@ || "Kind:"@.is_prefix_of(line)
        || "Language:"@.is_prefix_of(line) || "NOTE"@.is_prefix_of(line)
}

/// The speech in the lines of a subtitle file.
pub open spec fn vtt_speech(lines: Seq<Seq<char>>) -> Seq<Seq<char>>
    decreases lines.len(),
{
    if lines.len() == 0 {
        Seq::empty()
    } else if is_vtt_metadata(lines.last()) {
        vtt_speech(lines.drop_last())
    } else {
        vtt_speech(lines.drop_last()).push(without_tags(lines.last()))
    }
}

/// The transcript that a subtitle file holds.
pub open spec fn vtt_transcript(vtt: Seq<char>) -> Seq<char> {
    cleaned(joined(vtt_speech(lines_of(vtt)), "\n"@))
}

fn vtt_metadata(line: &str) -> (r: bool)
    ensures
        r == is_vtt_metadata(line@),
{
    let line = trim(line);
    contains(line, "-->") || same(line, "WEBVTT") || starts_with(line, "Kind:") || starts_with(
        line,
        "Language:",
    ) || starts_with(line, "NOTE")
}

proof fn lemma_speech_without(lines: Seq<Seq<char>>, i: int, line: Seq<char>)
    requires
        0 <= i <= lines.len(),
        is_vtt_metadata(line),
    ensures
        vtt_speech(lines.insert(i, line)) == vtt_speech(lines),
    decreases lines.len(),
{
    let all = lines.insert(i, line);
    if i == lines.len() {
        assert(all.drop_last() =~= lines);
    } else {
        lemma_speech_without(lines.drop_last(), i, line);
        assert(all.drop_last() =~= lines.drop_last().insert(i, line));
        assert(all.last() == lines.last());
    }
}

/// A line that is no speech changes no transcript, wherever it stands in the subtitle file.
pub proof fn metadata_lines_change_no_transcript(
    vtt: Seq<char>,
    with_line: Seq<char>,
    i: int,
    line: Seq<char>,
)
    requires
        0 <= i <= lines_of(vtt).len(),
        is_vtt_metadata(line),
        lines_of(with_line) == lines_of(vtt).insert(i, line),
    ensures
        vtt_transcript(with_line) == vtt_transcript(vtt),
{
    lemma_speech_without(lines_of(vtt), i, line);
}

/// The transcript that a subtitle file in the format `WebVTT` holds.
pub fn parse_vtt(vtt: &str) -> (r: String)
    ensures
        r@ == vtt_transcript(vtt@),
{
    let all_lines = lines(vtt);
    let ghost all = lines_of(vtt@);
    let mut speech: Vec<String> = Vec::new();
    let mut i: usize = 0;
    assert(texts(speech@) =~= vtt_speech(all.take(0)));
    while i < all_lines.len()
        invariant
            i <= all_lines.len(),
            texts(all_lines@) == all,
            texts(speech@) == vtt_speech(all.take(i as int)),
        decreases all_lines.len() - i,
    {
        let ghost before = texts(speech@);
        assert(all.take(i + 1).drop_last() =~= all.take(i as int));
        assert(all.take(i + 1).last() == all_lines@[i as int]@);
        if !vtt_metadata(all_lines[i].as_str()) {
            let stripped = strip_vtt_tags(all_lines[i].as_str());
            speech.push(stripped);
            assert(texts(speech@) =~= before.push(stripped@));
        }
        i += 1;
    }
    assert(all.take(all.len() as int) =~= all);
    let text = join(&speech, "\n");
    clean_transcript(text.as_str())
}

/// The transcript that a subtitle file holds, unless it is empty.
pub fn transcript_from_vtt(vtt: &str) -> (r: Option<String>)
    ensures
        opt_text(r) == if vtt_transcript(vtt@).len() == 0 {
            None
        } else {
            Some(vtt_transcript(vtt@))
        },
{
    let transcript = parse_vtt(vtt);
    if transcript.as_str().is_empty() {
        None
    } else {
        Some(transcript)
    }
}

/// Subtitles in the format `json3`.
#[derive(Debug)]
pub struct Json3Subtitle {
    pub events: Option<Vec<Json3Event>>,
}

#[derive(Debug)]
pub struct Json3Event {
    pub segs: Option<Vec<Json3Segment>>,
}

#[derive(Debug)]
pub struct Json3Segment {
    pub utf8: Option<String>,
}

/// The texts of segments one after another.
pub open spec fn segments_text(segments: Seq<Json3Segment>) -> Seq<char>
    decreases segments.len(),
{
    if segments.len() == 0 {
        Seq::empty()
    } else {
        segments_text(segments.drop_last()) + match segments.last().utf8 {
            Some(text) => text@,
            None => Seq::empty(),
        }
    }
}

/// The texts of events one after another.
pub open spec fn events_text(events: Seq<Json3Event>) -> Seq<char>
    decreases events.len(),
{
    if events.len() == 0 {
        Seq::empty()
    } else {
        events_text(events.drop_last()) + match events.last().segs {
            Some(segments) => segments_text(segments@),
            None => Seq::empty(),
        }
    }
}

fn push_segments(text: &mut String, segments: &Vec<Json3Segment>)
    ensures
        final(text)@ == old(text)@ + segments_text(segments@),
{
    let ghost start = text@;
    let mut i: usize = 0;
    assert(text@ =~= start + segments_text(segments@.take(0)));
    while i < segments.len()
        invariant
            i <= segments.len(),
            text@ == start + segments_text(segments@.take(i as int)),
        decreases segments.len() - i,
    {
        assert(segments@.take(i + 1).drop_last() =~= segments@.take(i as int));
        if let Some(part) = &segments[i].utf8 {
            text.append(part.as_str());
        }
        assert(text@ =~= start + segments_text(segments@.take(i + 1)));
        i += 1;
    }
    assert(segments@.take(segments@.len() as int) =~= segments@);
}

/// The transcript that parsed subtitles hold; subtitles without events are refused.
pub fn parse_json3(subtitle: &Json3Subtitle) -> (r: Result<String, TranscriptError>)
    ensures
        match subtitle.events {
            Some(events) => r matches Ok(text) && text@ == cleaned(events_text(events@)),
            None => r == Err::<String, TranscriptError>(TranscriptError::MissingSubtitleEvents),
        },
{
    let events = match &subtitle.events {
        Some(events) => events,
        None => {
            return Err(TranscriptError::MissingSubtitleEvents);
        },
    };
    let mut raw = String::new();
    let mut i: usize = 0;
    while i < events.len()
        invariant
            i <= events.len(),
            raw@ == events_text(events@.take(i as int)),
        decreases events.len() - i,
    {
        assert(events@.take(i + 1).drop_last() =~= events@.take(i as int));
        if let Some(segments) = &events[i].segs {
            push_segments(&mut raw, segments);
        }
        assert(raw@ =~= events_text(events@.take(i + 1)));
        i += 1;
    }
    assert(events@.take(events@.len() as int) =~= events@);
    Ok(clean_transcript(raw.as_str()))
}

/// Whether a file is the subtitle file of a video.
pub open spec fn is_subtitle_of(name: Seq<char>, video_id: Seq<char>) -> bool {
    extension_of(name) == Some("json3"@) && (video_id + "."@).is_prefix_of(name)
}

/// The first of the files `names` in a directory that is the subtitle file of a video.
pub fn find_subtitle_path(work_dir: &str, names: &Vec<String>, video_id: &str) -> (r: Result<
    String,
    TranscriptError,
>)
    ensures
        match r {
            Ok(path) => exists|i: int|
                {
                    &&& 0 <= i < names@.len()
                    &&& is_subtitle_of(#[trigger] names@[i]@, video_id@)
                    &&& path@ == joined_path(work_dir@, names@[i]@)
                    &&& forall|j: int|
                        0 <= j < i ==> !is_subtitle_of(#[trigger] names@[j]@, video_id@)
                },
            Err(error) => {
                &&& forall|j: int|
                    0 <= j < names@.len() ==> !is_subtitle_of(#[trigger] names@[j]@, video_id@)
                &&& error matches TranscriptError::SubtitleFileNotFound { video_id: id }
                &&& id@ == video_id@
            },
        },
{
    let prefix = video_id.to_owned().concat(".");
    let mut i: usize = 0;
    while i < names.len()
        invariant
            i <= names.len(),
            prefix@ == video_id@ + "."@,
            forall|j: int| 0 <= j < i ==> !is_subtitle_of(#[trigger] names@[j]@, video_id@),
        decreases names.len() - i,
    {
        let name = names[i].as_str();
        let subtitles = match extension(name) {
            Some(found) => same(found, "json3"),
            None => false,
        };
        if subtitles && starts_with(name, prefix.as_str()) {
            return Ok(join_path(work_dir, name));
        }
        i += 1;
    }
    Err(TranscriptError::SubtitleFileNotFound { video_id: video_id.to_owned() })
}

/// The name of a directory for one fetch.
pub open spec fn fetch_dir_name(video_id: Seq<char>, process: u32, fetch: u64) -> Seq<char> {
    video_id + "."@ + decimal(process as nat) + "."@ + decimal(fetch as nat)
}

/// A directory of its own for a fetch, so that fetches of one video do not meet.
pub fn unique_fetch_dir(work_dir: &str, video_id: &str, process: u32, fetch: u64) -> (path: String)
    ensures
        path@ == joined_path(work_dir@, fetch_dir_name(video_id@, process, fetch)),
{
    let mut name = video_id.to_owned().concat(".");
    push_decimal(&mut name, process as u64);
    name.append(".");
    push_decimal(&mut name, fetch);
    join_path(work_dir, name.as_str())
}

/// Two fetches of one video by one process have different directories.
pub proof fn fetch_directories_differ(
    work_dir: Seq<char>,
    video_id: Seq<char>,
    process: u32,
    first: u64,
    second: u64,
)
    requires
        first != second,
    ensures
        joined_path(work_dir, fetch_dir_name(video_id, process, first)) != joined_path(
            work_dir,
            fetch_dir_name(video_id, process, second),
        ),
{
    let start = video_id + "."@ + decimal(process as nat) + "."@;
    let (a, b) = (fetch_dir_name(video_id, process, first), fetch_dir_name(
        video_id,
        process,
        second,
    ));
    let (x, y) = (joined_path(work_dir, a), joined_path(work_dir, b));
    reveal_strlit(".");
    assert(start.len() > 0);
    assert(a[0] == start[0] && b[0] == start[0]);
    if x == y {
        assert(x.len() == y.len());
        assert(a.len() == b.len());
        assert(x.skip(x.len() - a.len()) =~= a);
        assert(y.skip(y.len() - b.len()) =~= b);
        assert(a.skip(start.len() as int) =~= decimal(first as nat));
        assert(b.skip(start.len() as int) =~= decimal(second as nat));
        decimal_is_injective(first as nat, second as nat);
    }
}

/// The downloader's arguments for subtitles in the format `json3`.
pub open spec fn transcript_arguments(
    browser: Seq<char>,
    template: Seq<char>,
    url: Seq<char>,
) -> Seq<Seq<char>> {
    seq![
        "--cookies-from-browser"@,
        browser,
        "--write-auto-sub"@,
        "--sub-format"@,
        "json3"@,
        "--skip-download"@,
        "-o"@,
        template,
        "--no-playlist"@,
        "--no-warnings"@,
        url,
    ]
}

/// The downloader's arguments that fetch subtitles of the video at `url` into a directory.
pub fn transcript_args(cookies_browser: &str, fetch_dir: &str, video_id: &str, url: &str) -> (r: Vec<
    String,
>)
    ensures
        texts(r@) == transcript_arguments(
            cookies_browser@,
            joined_path(fetch_dir@, video_id@ + ".%(ext)s"@),
            url@,
        ),
{
    let name = video_id.to_owned().concat(".%(ext)s");
    let template = join_path(fetch_dir, name.as_str());
    let r = owned(
        &[
            "--cookies-from-browser",
            cookies_browser,
            "--write-auto-sub",
            "--sub-format",
            "json3",
            "--skip-download",
            "-o",
            template.as_str(),
            "--no-playlist",
            "--no-warnings",
            url,
        ],
    );
    assert(texts(r@) =~= transcript_arguments(cookies_browser@, template@, url@));
    r
}

proof fn lemma_same_lines(p: Seq<Seq<char>>, q: Seq<Seq<char>>, b: Seq<Seq<char>>)
    requires
        distinct_lines(p) == distinct_lines(q),
    ensures
        distinct_lines(p + b) == distinct_lines(q + b),
    decreases b.len(),
{
    if b.len() == 0 {
        assert(p + b =~= p && q + b =~= q);
    } else {
        lemma_same_lines(p, q, b.drop_last());
        assert((p + b).drop_last() =~= p + b.drop_last());
        assert((q + b).drop_last() =~= q + b.drop_last());
        assert((p + b).last() == b.last() && (q + b).last() == b.last());
    }
}

/// Which lines of subtitles are kept: not a blank one, wherever it stands; not one that, but
/// for whitespace at its ends, is the line before it again; and all others, trimmed, in their
/// order.
pub proof fn blank_and_repeated_lines_are_left_out(
    a: Seq<Seq<char>>,
    line: Seq<char>,
    again: Seq<char>,
    b: Seq<Seq<char>>,
)
    ensures
        trimmed(line).len() == 0 ==> distinct_lines(a + seq![line] + b) == distinct_lines(a + b),
        trimmed(line) == trimmed(again) ==> distinct_lines(a + seq![line, again] + b)
            == distinct_lines(a + seq![line] + b),
{
    let one = a + seq![line];
    assert(one.drop_last() =~= a);
    assert(one.last() == line);
    if trimmed(line).len() == 0 {
        lemma_same_lines(one, a, b);
    }
    if trimmed(line) == trimmed(again) {
        let two = a + seq![line, again];
        assert(two.drop_last() =~= one);
        assert(two.last() == again);
        lemma_same_lines(two, one, b);
    }
}

/// Lines that are neither blank nor repeated are all kept, trimmed, in their order.
pub proof fn other_lines_are_kept(lines: Seq<Seq<char>>)
    requires
        forall|i: int| 0 <= i < lines.len() ==> trimmed(#[trigger] lines[i]).len() > 0,
        forall|i: int, j: int|
            #![trigger lines[i], lines[j]]
            0 <= i && j == i + 1 && j < lines.len() ==> trimmed(lines[i]) != trimmed(lines[j]),
    ensures
        distinct_lines(lines).len() == lines.len(),
        forall|i: int|
            0 <= i < lines.len() ==> #[trigger] distinct_lines(lines)[i] == trimmed(lines[i]),
    decreases lines.len(),
{
    if lines.len() > 0 {
        let front = lines.drop_last();
        assert forall|i: int| 0 <= i < front.len() implies trimmed(#[trigger] front[i]).len()
            > 0 by {
            assert(front[i] == lines[i]);
        }
        assert forall|i: int, j: int|
            #![trigger front[i], front[j]]
            0 <= i && j == i + 1 && j < front.len() implies trimmed(front[i]) != trimmed(
            front[j],
        ) by {
            assert(front[i] == lines[i] && front[j] == lines[j]);
        }
        other_lines_are_kept(front);
        assert(trimmed(lines[lines.len() - 1]).len() > 0);
        if front.len() > 0 {
            assert(distinct_lines(front)[front.len() - 1] == trimmed(front[front.len() - 1]));
            assert(trimmed(lines[lines.len() - 2]) != trimmed(lines[lines.len() - 1]));
        }
        assert forall|i: int| 0 <= i < lines.len() implies #[trigger] distinct_lines(lines)[i]
            == trimmed(lines[i]) by {
            if i < front.len() {
                assert(distinct_lines(front)[i] == trimmed(front[i]));
            }
        }
    }
}

/// Whether lines are clean and none is the one before it again.
pub open spec fn are_spoken_lines(lines: Seq<Seq<char>>) -> bool {
    &&& forall|i: int| 0 <= i < lines.len() ==> is_clean_line(#[trigger] lines[i])
    &&& forall|i: int, j: int|
        #![trigger lines[i], lines[j]]
        0 <= i && j == i + 1 && j < lines.len() ==> lines[i] != lines[j]
}

proof fn lemma_lines_of_joined(lines: Seq<Seq<char>>)
    requires
        lines.len() > 0,
        forall|i: int|
            #![trigger lines[i]]
            0 <= i < lines.len() ==> lines[i].len() > 0 && !lines[i].contains('\n')
                && lines[i].last() != '\r',
    ensures
        lines_of(joined(lines, "\n"@)) == lines,
{
    reveal_strlit("\n");
    assert("\n"@ =~= seq!['\n']);
    lemma_split_joined(lines, '\n');
    let cut = |piece: Seq<char>| crate::text::without_cr(piece);
    assert(lines.drop_last().map_values(cut) =~= lines.drop_last()) by {
        assert forall|i: int| 0 <= i < lines.drop_last().len() implies #[trigger]
            lines.drop_last().map_values(cut)[i] == lines.drop_last()[i] by {
            assert(lines.drop_last()[i] == lines[i]);
        }
    }
    assert(lines[lines.len() - 1].len() > 0);
    assert(lines.drop_last().push(lines.last()) =~= lines);
}

/// Spoken lines become one line, with a space where each of them ended.
pub proof fn lines_become_one_with_spaces_between(lines: Seq<Seq<char>>)
    requires
        are_spoken_lines(lines),
        lines.len() > 0,
    ensures
        cleaned(joined(lines, "\n"@)) == joined(lines, " "@),
{
    assert forall|i: int| #![trigger lines[i]] 0 <= i < lines.len() implies lines[i].len() > 0
        && !lines[i].contains('\n') && lines[i].last() != '\r' && trimmed(lines[i])
        == lines[i] by {
        assert(is_clean_line(lines[i]));
        lemma_trimmed_identity(lines[i]);
    }
    lemma_lines_of_joined(lines);
    other_lines_are_kept(lines);
    assert(distinct_lines(lines) =~= lines);
}

/// The text of subtitles is what their segments hold, event by event and segment by segment,
/// each as it is; an event or a segment that holds nothing adds nothing.
pub proof fn every_segment_is_read_as_it_is(
    a: Seq<Json3Event>,
    event: Json3Event,
    b: Seq<Json3Event>,
    x: Seq<Json3Segment>,
    segment: Json3Segment,
    y: Seq<Json3Segment>,
)
    ensures
        events_text(a + b) == events_text(a) + events_text(b),
        events_text(seq![event]) == match event.segs {
            Some(segments) => segments_text(segments@),
            None => Seq::empty(),
        },
        segments_text(x + y) == segments_text(x) + segments_text(y),
        segments_text(seq![segment]) == match segment.utf8 {
            Some(text) => text@,
            None => Seq::empty(),
        },
    decreases b.len() + y.len(),
{
    let none = Seq::<char>::empty();
    assert(seq![event].drop_last() =~= Seq::empty());
    assert(seq![segment].drop_last() =~= Seq::empty());
    assert(events_text(Seq::empty()) =~= none && segments_text(Seq::empty()) =~= none);
    assert(segments_text(seq![segment]) =~= match segment.utf8 {
        Some(text) => text@,
        None => none,
    });
    assert(events_text(seq![event]) =~= match event.segs {
        Some(segments) => segments_text(segments@),
        None => none,
    });
    if b.len() == 0 {
        assert(a + b =~= a);
        assert(events_text(a) + events_text(b) =~= events_text(a));
    } else {
        every_segment_is_read_as_it_is(a, event, b.drop_last(), x, segment, Seq::empty());
        assert((a + b).drop_last() =~= a + b.drop_last());
        assert((a + b).last() == b.last());
        assert(events_text(a + b) =~= events_text(a) + events_text(b));
    }
    if y.len() == 0 {
        assert(x + y =~= x);
        assert(segments_text(x) + segments_text(y) =~= segments_text(x));
    } else {
        every_segment_is_read_as_it_is(a, event, Seq::empty(), x, segment, y.drop_last());
        assert((x + y).drop_last() =~= x + y.drop_last());
        assert((x + y).last() == y.last());
        assert(segments_text(x + y) =~= segments_text(x) + segments_text(y));
    }
}

/// An event that holds only a line break parts the words of the events before it from those of
/// the events behind it by a space.
pub proof fn line_breaks_part_words(
    before: Seq<Json3Event>,
    line_break: Json3Event,
    after: Seq<Json3Event>,
)
    requires
        line_break.segs matches Some(segments) && segments@.len() == 1 && opt_text(
            segments@[0].utf8,
        ) == Some("\n"@),
        is_clean_line(events_text(before)),
        is_clean_line(events_text(after)),
        events_text(before) != events_text(after),
    ensures
        cleaned(events_text(before + seq![line_break] + after)) == events_text(before) + " "@
            + events_text(after),
{
    let segments = line_break.segs.unwrap();
    let segment = segments@[0];
    let nothing = Seq::<Json3Segment>::empty();
    assert(segments@ =~= seq![segment]);
    every_segment_is_read_as_it_is(before, line_break, seq![line_break], nothing, segment, nothing);
    every_segment_is_read_as_it_is(
        before + seq![line_break],
        line_break,
        after,
        nothing,
        segment,
        nothing,
    );
    let lines = seq![events_text(before), events_text(after)];
    lines_become_one_with_spaces_between(lines);
    lemma_joined_two(lines, "\n"@);
    lemma_joined_two(lines, " "@);
}

proof fn lemma_joined_two(parts: Seq<Seq<char>>, sep: Seq<char>)
    requires
        parts.len() == 2,
    ensures
        joined(parts, sep) == parts[0] + sep + parts[1],
{
    let one = parts.drop_last();
    assert(one.len() == 1 && one[0] == parts[0]);
    assert(joined(one, sep) == parts[0]);
}

proof fn lemma_tags_add(a: Seq<char>, b: Seq<char>)
    ensures
        !inside_tag(a) ==> inside_tag(a + b) == inside_tag(b) && without_tags(a + b)
            == without_tags(a) + without_tags(b),
        inside_tag(a) && !b.contains('>') ==> inside_tag(a + b) && without_tags(a + b)
            == without_tags(a),
    decreases b.len(),
{
    if b.len() == 0 {
        assert(a + b =~= a);
        assert(without_tags(a) + without_tags(b) =~= without_tags(a));
    } else {
        let front = b.drop_last();
        lemma_tags_add(a, front);
        assert((a + b).drop_last() =~= a + front);
        assert((a + b).last() == b.last());
        assert(without_tags(a) + without_tags(front).push(b.last()) =~= (without_tags(a)
            + without_tags(front)).push(b.last()));
        assert(b.contains(b[b.len() - 1]));
        if !b.contains('>') {
            assert forall|i: int| 0 <= i < front.len() implies front[i] != '>' by {
                assert(b.contains(b[i]));
            }
        }
    }
}

proof fn lemma_no_tags(s: Seq<char>)
    requires
        !s.contains('<'),
        !s.contains('>'),
    ensures
        without_tags(s) == s,
        !inside_tag(s),
    decreases s.len(),
{
    if s.len() > 0 {
        let front = s.drop_last();
        assert forall|i: int| 0 <= i < front.len() implies front[i] != '<' && front[i] != '>' by {
            assert(s.contains(s[i]));
        }
        lemma_no_tags(front);
        assert(s.contains(s[s.len() - 1]));
        assert(front.push(s.last()) =~= s);
    }
}

/// Text outside of angle brackets stays as it is; a tag goes, from its opening to its closing
/// bracket, or to the end where it is not closed; a closing bracket alone goes.
pub proof fn tags_go_and_text_stays(text: Seq<char>, tag: Seq<char>, rest: Seq<char>)
    requires
        !text.contains('<'),
        !text.contains('>'),
        !tag.contains('>'),
    ensures
        without_tags(text) == text,
        without_tags(text + seq!['<'] + tag + seq!['>'] + rest) == text + without_tags(rest),
        without_tags(text + seq!['<'] + tag) == text,
        without_tags(text + seq!['>'] + rest) == text + without_tags(rest),
{
    lemma_no_tags(text);
    let open = text + seq!['<'];
    assert(open.drop_last() =~= text);
    assert(inside_tag(open) && without_tags(open) =~= text);
    lemma_tags_add(open, tag);
    let closed = open + tag + seq!['>'];
    assert(closed.drop_last() =~= open + tag);
    assert(!inside_tag(closed) && without_tags(closed) =~= text);
    lemma_tags_add(closed, rest);
    let lone = text + seq!['>'];
    assert(lone.drop_last() =~= text);
    assert(!inside_tag(lone) && without_tags(lone) =~= text);
    lemma_tags_add(lone, rest);
}

/// Which lines of a subtitle file are no speech: the heading, those that begin with `Kind:`,
/// `Language:` or `NOTE`, and those with an arrow in them; whitespace at their ends aside.
pub proof fn headings_notes_and_times_are_no_speech(
    line: Seq<char>,
    a: Seq<char>,
    b: Seq<char>,
)
    ensures
        trimmed(line) == "WEBVTT"@ ==> is_vtt_metadata(line),
        trimmed(line) == "Kind:"@ + b ==> is_vtt_metadata(line),
        trimmed(line) == "Language:"@ + b ==> is_vtt_metadata(line),
        trimmed(line) == "NOTE"@ + b ==> is_vtt_metadata(line),
        trimmed(line) == a + "-->"@ + b ==> is_vtt_metadata(line),
        is_vtt_metadata(line) ==> {
            let core = trimmed(line);
            ||| core == "WEBVTT"@
            ||| core.len() >= 5 && core.take(5) == "Kind:"@
            ||| core.len() >= 9 && core.take(9) == "Language:"@
            ||| core.len() >= 4 && core.take(4) == "NOTE"@
            ||| exists|i: int|
                0 <= i && i + 3 <= core.len() && #[trigger] core.subrange(i, i + 3) == "-->"@
        },
{
    let core = trimmed(line);
    reveal_strlit("Kind:");
    reveal_strlit("Language:");
    reveal_strlit("NOTE");
    reveal_strlit("-->");
    if core == "Kind:"@ + b {
        assert(core.subrange(0, 5) =~= "Kind:"@);
    }
    if core == "Language:"@ + b {
        assert(core.subrange(0, 9) =~= "Language:"@);
    }
    if core == "NOTE"@ + b {
        assert(core.subrange(0, 4) =~= "NOTE"@);
    }
    if core == a + "-->"@ + b {
        assert(core.subrange(a.len() as int, a.len() as int + 3) =~= "-->"@);
        assert(crate::text::occurs_at(core, "-->"@, a.len() as int));
    }
    if is_vtt_metadata(line) {
        if has_text(core, "-->"@) {
            let i = choose|i: int| crate::text::occurs_at(core, "-->"@, i);
            assert(core.subrange(i, i + 3) == "-->"@);
        }
        assert("Kind:"@.is_prefix_of(core) ==> core.take(5) =~= "Kind:"@);
        assert("Language:"@.is_prefix_of(core) ==> core.take(9) =~= "Language:"@);
        assert("NOTE"@.is_prefix_of(core) ==> core.take(4) =~= "NOTE"@);
    }
}

/// The speech of a subtitle file comes line by line: a line that is speech is kept without its
/// tags.
pub proof fn speech_comes_line_by_line(a: Seq<Seq<char>>, line: Seq<char>, b: Seq<Seq<char>>)
    ensures
        vtt_speech(a + b) == vtt_speech(a) + vtt_speech(b),
        is_vtt_metadata(line) ==> vtt_speech(seq![line]).len() == 0,
        !is_vtt_metadata(line) ==> vtt_speech(seq![line]) == seq![without_tags(line)],
    decreases b.len(),
{
    assert(seq![line].drop_last() =~= Seq::empty());
    assert(vtt_speech(Seq::empty()) =~= Seq::<Seq<char>>::empty());
    if b.len() == 0 {
        assert(a + b =~= a);
        assert(vtt_speech(a) + vtt_speech(b) =~= vtt_speech(a));
    } else {
        speech_comes_line_by_line(a, line, b.drop_last());
        assert((a + b).drop_last() =~= a + b.drop_last());
        assert((a + b).last() == b.last());
        assert(vtt_speech(a + b) =~= vtt_speech(a) + vtt_speech(b));
    }
}

proof fn lemma_all_speech(lines: Seq<Seq<char>>)
    requires
        forall|i: int| 0 <= i < lines.len() ==> !is_vtt_metadata(#[trigger] lines[i]),
    ensures
        vtt_speech(lines) == lines.map_values(|line: Seq<char>| without_tags(line)),
    decreases lines.len(),
{
    let strip = |line: Seq<char>| without_tags(line);
    if lines.len() > 0 {
        let front = lines.drop_last();
        assert forall|i: int| 0 <= i < front.len() implies !is_vtt_metadata(#[trigger] front[i]) by {
            assert(front[i] == lines[i]);
        }
        lemma_all_speech(front);
        assert(!is_vtt_metadata(lines[lines.len() - 1]));
        assert(lines.map_values(strip) =~= front.map_values(strip).push(strip(lines.last())));
    } else {
        assert(lines.map_values(strip) =~= Seq::empty());
    }
}

/// A subtitle file whose lines are all speech, none the one before it again, makes the
/// transcript that has them one after another with spaces between, without their tags.
pub proof fn speech_makes_the_transcript(lines: Seq<Seq<char>>)
    requires
        lines.len() > 0,
        forall|i: int|
            #![trigger lines[i]]
            0 <= i < lines.len() ==> !is_vtt_metadata(lines[i]) && lines[i].len() > 0
                && !lines[i].contains('\n') && lines[i].last() != '\r',
        are_spoken_lines(lines.map_values(|line: Seq<char>| without_tags(line))),
    ensures
        vtt_transcript(joined(lines, "\n"@)) == joined(
            lines.map_values(|line: Seq<char>| without_tags(line)),
            " "@,
        ),
{
    let spoken = lines.map_values(|line: Seq<char>| without_tags(line));
    lemma_lines_of_joined(lines);
    lemma_all_speech(lines);
    lines_become_one_with_spaces_between(spoken);
}

/// The subtitle file of a video is named after it: the identifier, a dot, anything but an
/// extension, and the extension `json3`.
pub proof fn subtitle_files_are_named_after_the_video(
    name: Seq<char>,
    video_id: Seq<char>,
    language: Seq<char>,
)
    ensures
        is_subtitle_of(video_id + "."@ + language + ".json3"@, video_id),
        is_subtitle_of(name, video_id) ==> {
            &&& name.len() > video_id.len()
            &&& name.take(video_id.len() as int) == video_id
            &&& name[video_id.len() as int] == '.'
            &&& name.len() >= 6 && name.skip(name.len() - 6) == ".json3"@
        },
{
    reveal_strlit(".");
    reveal_strlit("json3");
    reveal_strlit(".json3");
    let stem = video_id + "."@ + language;
    let full = video_id + "."@ + language + ".json3"@;
    assert(full =~= stem + seq!['.'] + "json3"@);
    lemma_name_with_extension(stem, "json3"@);
    assert(full.subrange(0, (video_id + "."@).len() as int) =~= video_id + "."@);
    if is_subtitle_of(name, video_id) {
        let start = video_id + "."@;
        assert(name.subrange(0, start.len() as int) == start);
        assert(name.take(video_id.len() as int) =~= video_id) by {
            assert forall|i: int| 0 <= i < video_id.len() implies name[i] == video_id[i] by {
                assert(name.subrange(0, start.len() as int)[i] == start[i]);
            }
        }
        assert(name.subrange(0, start.len() as int)[video_id.len() as int] == '.');
        lemma_last_position(name, '.');
        let i = crate::paths::last_position(name, '.').unwrap();
        assert(name.skip(i + 1).len() == 5);
        assert(name.skip(name.len() - 6) =~= ".json3"@) by {
            assert forall|k: int| 0 <= k < 6 implies name.skip(name.len() - 6)[k]
                == ".json3"@[k] by {
                if k > 0 {
                    assert(name.skip(i + 1)[k - 1] == "json3"@[k - 1]);
                }
            }
        }
    }
}

/// The run for a transcript fetches subtitles in the format `json3` to the template, and not
/// the video.
pub proof fn transcript_runs_fetch_only_subtitles(
    browser: Seq<char>,
    template: Seq<char>,
    url: Seq<char>,
)
    ensures
        ({
            let args = transcript_arguments(browser, template, url);
            &&& args.len() == 11
            &&& args.contains("--skip-download"@)
            &&& args.contains("--write-auto-sub"@)
            &&& args.contains("--no-playlist"@)
            &&& args.contains("--no-warnings"@)
            &&& sets(args, "--cookies-from-browser"@, browser)
            &&& sets(args, "--sub-format"@, "json3"@)
            &&& sets(args, "-o"@, template)
            &&& args.last() == url
        }),
{
    let args = transcript_arguments(browser, template, url);
    assert(args[5] == "--skip-download"@ && args[2] == "--write-auto-sub"@ && args[8]
        == "--no-playlist"@ && args[9] == "--no-warnings"@);
    assert(args[0] == "--cookies-from-browser"@ && args[1] == browser);
    assert(args[3] == "--sub-format"@ && args[4] == "json3"@);
    assert(args[6] == "-o"@ && args[7] == template);
}

/// What keeps a transcript from being fetched is told, and the video where its subtitles are
/// not found.
pub proof fn failed_transcripts_are_told(text: String)
    ensures
        transcript_error_text(TranscriptError::Io(text)) == "I/O error: "@ + text@,
        transcript_error_text(TranscriptError::Json(text)) == "JSON parse error: "@ + text@,
        transcript_error_text(TranscriptError::SubtitleFetchFailed)
            == "yt-dlp failed to fetch subtitles"@,
        transcript_error_text(TranscriptError::SubtitleFileNotFound { video_id: text })
            == "no subtitle file found for video "@ + text@,
        transcript_error_text(TranscriptError::MissingSubtitleEvents)
            == "subtitle payload does not contain events"@,
{
}

} // verus!
