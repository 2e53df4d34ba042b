//! Where videos, thumbnails and sidecar files are kept, and which of them are kept at all.

use crate::data::{
    video_views, NewVideo, Timestamp, Video, VideoView, WatchLaterData, unescaped_or_raw,
    xml_unescaped,
};
use crate::ids::{in_order, ordered_listing_is_unique, IdSet};
use crate::paths::{
    extension, extension_of, file_stem, join_path, joined_path, lemma_name_with_extension, stem_of,
};
use crate::text::{
    chars_of, is_ascii_alphanumeric, is_control, is_whitespace, opt_text,
    pieces_part_at_separators, same, skip_leading,
    skip_trailing, split, split_at, string_of, strip_suffix, texts, trim, trim_end_by, trimmed,
    CharSet,
};
use crate::order::{newest_first, sort_newest_first};
use crate::time::{instant_at, instant_of, parse_midnight, parsed_midnight};
use crate::ui::startup::Saved;
use crate::urls;
use vstd::prelude::*;

verus! {

/// The longest title, in characters, that a file name holds.
pub const MAX_TITLE_LENGTH: usize = 100;

/// The number of characters of a video identifier.
pub const YOUTUBE_VIDEO_ID_LENGTH: usize = 11;

/// The characters of video identifiers.
pub open spec fn is_id_char(c: char) -> bool {
    is_ascii_alphanumeric(c) || c == '-' || c == '_'
}

/// Whether `s` has the form of a video identifier.
pub open spec fn is_video_id(s: Seq<char>) -> bool {
    s.len() == YOUTUBE_VIDEO_ID_LENGTH && forall|i: int|
        0 <= i < s.len() ==> is_id_char(#[trigger] s[i])
}

/// The identifier that a file's stem ends with: the whole stem, or what follows an
/// underscore.
pub open spec fn id_from_stem(stem: Seq<char>) -> Option<Seq<char>> {
    let start = stem.len() - YOUTUBE_VIDEO_ID_LENGTH;
    if start >= 0 && is_video_id(stem.skip(start)) && (start == 0 || stem[start - 1] == '_') {
        Some(stem.skip(start))
    } else {
        None
    }
}

/// The extensions of downloaded videos.
pub open spec fn is_video_extension(extension: Option<Seq<char>>) -> bool {
    extension == Some("mkv"@) || extension == Some("mp4"@) || extension == Some("webm"@)
}

/// The video that a downloaded file is of.
pub open spec fn cached_video_id(name: Seq<char>) -> Option<Seq<char>> {
    if is_video_extension(extension_of(name)) {
        id_from_stem(stem_of(name))
    } else {
        None
    }
}

/// The video that a subtitle file is of.
pub open spec fn subtitle_video_id(name: Seq<char>) -> Option<Seq<char>> {
    if extension_of(name) == Some("vtt"@) {
        id_from_stem(split_at(stem_of(name), '.')[0])
    } else {
        None
    }
}

/// The video that a downloader's info file is of.
pub open spec fn info_json_video_id(name: Seq<char>) -> Option<Seq<char>> {
    if extension_of(name) == Some("json"@) && ".info.json"@.is_suffix_of(name) {
        id_from_stem(name.take(name.len() - ".info.json"@.len()))
    } else {
        None
    }
}

/// The video that a thumbnail is of.
pub open spec fn thumbnail_video_id(name: Seq<char>) -> Option<Seq<char>> {
    if extension_of(name) == Some("jpg"@) && is_video_id(stem_of(name)) {
        Some(stem_of(name))
    } else {
        None
    }
}

/// The video that a sidecar file is of.
pub open spec fn sidecar_video_id(name: Seq<char>) -> Option<Seq<char>> {
    if extension_of(name) == Some("json"@) && is_video_id(stem_of(name)) {
        Some(stem_of(name))
    } else {
        None
    }
}

/// The view of an optional piece of text.
pub open spec fn opt_str(item: Option<&str>) -> Option<Seq<char>> {
    match item {
        Some(text) => Some(text@),
        None => None,
    }
}

fn id_char(c: char) -> (r: bool)
    ensures
        r == is_id_char(c),
{
    ('0' <= c && c <= '9') || ('a' <= c && c <= 'z') || ('A' <= c && c <= 'Z') || c == '-' || c
        == '_'
}

/// Whether `video_id` has the form of a video identifier.
pub fn is_valid_video_id(video_id: &str) -> (r: bool)
    ensures
        r == is_video_id(video_id@),
{
    let chars = chars_of(video_id);
    if chars.len() != YOUTUBE_VIDEO_ID_LENGTH {
        return false;
    }
    let mut i: usize = 0;
    while i < chars.len()
        invariant
            chars@ == video_id@,
            i <= chars.len(),
            forall|j: int| 0 <= j < i ==> is_id_char(#[trigger] video_id@[j]),
        decreases chars.len() - i,
    {
        if !id_char(chars[i]) {
            assert(!is_id_char(video_id@[i as int]));
            return false;
        }
        i += 1;
    }
    true
}

/// The identifier that a file's stem ends with.
pub fn video_id_from_stem<'a>(stem: &'a str) -> (r: Option<&'a str>)
    ensures
        opt_str(r) == id_from_stem(stem@),
{
    let length: usize = stem.unicode_len();
    if length < YOUTUBE_VIDEO_ID_LENGTH {
        return None;
    }
    let start: usize = length - YOUTUBE_VIDEO_ID_LENGTH;
    let video_id = stem.substring_char(start, length);
    assert(video_id@ == stem@.skip(start as int));
    if !is_valid_video_id(video_id) {
        return None;
    }
    if start == 0 || stem.get_char(start - 1) == '_' {
        Some(video_id)
    } else {
        None
    }
}

fn has_extension(name: &str, wanted: &str) -> (r: bool)
    ensures
        r == (extension_of(name@) == Some(wanted@)),
{
    match extension(name) {
        Some(found) => same(found, wanted),
        None => false,
    }
}

/// The video that a downloaded file is of.
pub fn cached_video_id_for_path<'a>(name: &'a str) -> (r: Option<&'a str>)
    ensures
        opt_str(r) == cached_video_id(name@),
{
    if has_extension(name, "mkv") || has_extension(name, "mp4") || has_extension(name, "webm") {
        video_id_from_stem(file_stem(name))
    } else {
        None
    }
}

/// The video that a subtitle file is of.
pub fn video_id_from_subtitle_path(name: &str) -> (r: Option<String>)
    ensures
        opt_text(r) == subtitle_video_id(name@),
{
    if !has_extension(name, "vtt") {
        return None;
    }
    let pieces = split(file_stem(name), '.');
    proof {
        crate::text::lemma_split_nonempty(stem_of(name@), '.');
        assert(texts(pieces@)[0] == pieces@[0]@);
    }
    match video_id_from_stem(pieces[0].as_str()) {
        Some(video_id) => Some(video_id.to_owned()),
        None => None,
    }
}

/// The video that a downloader's info file is of.
pub fn video_id_from_info_json_path<'a>(name: &'a str) -> (r: Option<&'a str>)
    ensures
        opt_str(r) == info_json_video_id(name@),
{
    if !has_extension(name, "json") {
        return None;
    }
    match strip_suffix(name, ".info.json") {
        Some(stem) => video_id_from_stem(stem),
        None => None,
    }
}

/// The video that a thumbnail is of.
pub fn video_id_from_thumbnail_path<'a>(name: &'a str) -> (r: Option<&'a str>)
    ensures
        opt_str(r) == thumbnail_video_id(name@),
{
    if has_extension(name, "jpg") && is_valid_video_id(file_stem(name)) {
        Some(file_stem(name))
    } else {
        None
    }
}

/// The video that a sidecar file is of.
pub fn video_id_from_sidecar_path<'a>(name: &'a str) -> (r: Option<&'a str>)
    ensures
        opt_str(r) == sidecar_video_id(name@),
{
    if has_extension(name, "json") && is_valid_video_id(file_stem(name)) {
        Some(file_stem(name))
    } else {
        None
    }
}

/// Characters that no file name holds.
pub open spec fn is_unsafe(c: char) -> bool {
    ||| c == '/'
    ||| c == '\\'
    ||| c == ':'
    ||| c == '*'
    ||| c == '?'
    ||| c == '"'
    ||| c == '<'
    ||| c == '>'
    ||| c == '|'
    ||| is_control(c)
}

pub open spec fn safe_char(c: char) -> char {
    if is_unsafe(c) {
        '_'
    } else {
        c
    }
}

pub open spec fn shortened(s: Seq<char>, length: nat) -> Seq<char> {
    if s.len() <= length {
        s
    } else {
        s.take(length as int)
    }
}

/// A title as part of a file name: trimmed, with underscores for unsafe characters, cut to
/// the longest length and trimmed at the end once more.
pub open spec fn sanitized(title: Seq<char>) -> Seq<char> {
    let safe = trimmed(title).map_values(|c: char| safe_char(c));
    skip_trailing(shortened(safe, MAX_TITLE_LENGTH as nat), CharSet::Whitespace)
}

fn make_safe(c: char) -> (r: char)
    ensures
        r == safe_char(c),
{
    let n: u32 = c as u32;
    if c == '/' || c == '\\' || c == ':' || c == '*' || c == '?' || c == '"' || c == '<' || c == '>'
        || c == '|' || n <= 0x1F || (0x7F <= n && n <= 0x9F) {
        '_'
    } else {
        c
    }
}

/// A title as part of a file name.
pub fn sanitize_filename(input: &str) -> (r: String)
    ensures
        r@ == sanitized(input@),
{
    let chars = chars_of(trim(input));
    let ghost safe = trimmed(input@).map_values(|c: char| safe_char(c));
    let mut kept: Vec<char> = Vec::new();
    let mut i: usize = 0;
    while i < chars.len() && i < MAX_TITLE_LENGTH
        invariant
            chars@ == trimmed(input@),
            safe == trimmed(input@).map_values(|c: char| safe_char(c)),
            i <= chars.len(),
            i <= MAX_TITLE_LENGTH,
            kept@ == safe.take(i as int),
        decreases chars.len() - i,
    {
        kept.push(make_safe(chars[i]));
        assert(safe.take(i + 1) == safe.take(i as int).push(safe[i as int]));
        i += 1;
    }
    assert(kept@ == shortened(safe, MAX_TITLE_LENGTH as nat));
    let cut = string_of(kept.as_slice());
    trim_end_by(cut.as_str(), CharSet::Whitespace).to_owned()
}

proof fn lemma_skip_trailing(s: Seq<char>, set: CharSet)
    ensures
        skip_trailing(s, set).len() <= s.len(),
        skip_trailing(s, set) == s.take(skip_trailing(s, set).len() as int),
        skip_trailing(s, set).len() > 0 ==> !set.has(skip_trailing(s, set).last()),
    decreases s.len(),
{
    if s.len() > 0 && set.has(s.last()) {
        lemma_skip_trailing(s.drop_last(), set);
        let k = skip_trailing(s, set).len() as int;
        assert(s.drop_last().take(k) =~= s.take(k));
    } else {
        assert(s.take(s.len() as int) =~= s);
    }
}

proof fn lemma_skip_leading(s: Seq<char>, set: CharSet)
    ensures
        skip_leading(s, set).len() > 0 ==> !set.has(skip_leading(s, set)[0]),
    decreases s.len(),
{
    if s.len() > 0 && set.has(s[0]) {
        lemma_skip_leading(s.drop_first(), set);
    }
}

pub proof fn lemma_trimmed(s: Seq<char>)
    ensures
        trimmed(s).len() > 0 ==> !is_whitespace(trimmed(s)[0]) && !is_whitespace(trimmed(s).last()),
{
    let front = skip_leading(s, CharSet::Whitespace);
    lemma_skip_leading(s, CharSet::Whitespace);
    lemma_skip_trailing(front, CharSet::Whitespace);
}

pub proof fn lemma_trimmed_identity(s: Seq<char>)
    requires
        s.len() > 0 ==> !is_whitespace(s[0]) && !is_whitespace(s.last()),
    ensures
        trimmed(s) == s,
{
}

/// A sanitized title is short, holds no unsafe character and neither begins nor ends with
/// whitespace.
pub proof fn sanitized_titles_are_safe(title: Seq<char>)
    ensures
        sanitized(title).len() <= MAX_TITLE_LENGTH,
        forall|i: int| 0 <= i < sanitized(title).len() ==> !is_unsafe(#[trigger] sanitized(title)[i]),
        sanitized(title).len() > 0 ==> !is_whitespace(sanitized(title)[0]) && !is_whitespace(
            sanitized(title).last(),
        ),
{
    let safe = trimmed(title).map_values(|c: char| safe_char(c));
    let cut = shortened(safe, MAX_TITLE_LENGTH as nat);
    lemma_trimmed(title);
    lemma_skip_trailing(cut, CharSet::Whitespace);
    assert forall|i: int| 0 <= i < sanitized(title).len() implies !is_unsafe(
        #[trigger] sanitized(title)[i],
    ) by {
        assert(sanitized(title)[i] == safe_char(trimmed(title)[i]));
    }
    if sanitized(title).len() > 0 {
        assert(sanitized(title)[0] == safe_char(trimmed(title)[0]));
    }
}

/// Sanitizing a sanitized title changes nothing.
pub proof fn sanitizing_is_idempotent(title: Seq<char>)
    ensures
        sanitized(sanitized(title)) == sanitized(title),
{
    let once = sanitized(title);
    sanitized_titles_are_safe(title);
    lemma_trimmed_identity(once);
    assert(once.map_values(|c: char| safe_char(c)) =~= once);
}

/// The name of the file that a video is downloaded to.
pub open spec fn video_file_name(video_id: Seq<char>, title: Seq<char>) -> Seq<char> {
    sanitized(title) + "_"@ + video_id + ".mkv"@
}

pub open spec fn thumbnail_file_name(video_id: Seq<char>) -> Seq<char> {
    video_id + ".jpg"@
}

pub open spec fn sidecar_file_name(video_id: Seq<char>) -> Seq<char> {
    video_id + ".json"@
}

/// A video is found again by the name of the file it was downloaded to, whatever its title.
pub proof fn video_file_names_give_back_the_id(video_id: Seq<char>, title: Seq<char>)
    requires
        is_video_id(video_id),
    ensures
        cached_video_id(video_file_name(video_id, title)) == Some(video_id),
{
    reveal_strlit("_");
    reveal_strlit(".mkv");
    reveal_strlit("mkv");
    let stem = sanitized(title) + "_"@ + video_id;
    lemma_name_with_extension(stem, "mkv"@);
    assert(stem + seq!['.'] + "mkv"@ =~= video_file_name(video_id, title));
    assert(stem.skip(stem.len() - YOUTUBE_VIDEO_ID_LENGTH) =~= video_id);
}

/// A thumbnail is found again by its file's name.
pub proof fn thumbnail_file_names_give_back_the_id(video_id: Seq<char>)
    requires
        is_video_id(video_id),
    ensures
        thumbnail_video_id(thumbnail_file_name(video_id)) == Some(video_id),
{
    reveal_strlit(".jpg");
    reveal_strlit("jpg");
    lemma_name_with_extension(video_id, "jpg"@);
    assert(video_id + seq!['.'] + "jpg"@ =~= thumbnail_file_name(video_id));
}

/// A sidecar is found again by its file's name.
pub proof fn sidecar_file_names_give_back_the_id(video_id: Seq<char>)
    requires
        is_video_id(video_id),
    ensures
        sidecar_video_id(sidecar_file_name(video_id)) == Some(video_id),
{
    reveal_strlit(".json");
    reveal_strlit("json");
    lemma_name_with_extension(video_id, "json"@);
    assert(video_id + seq!['.'] + "json"@ =~= sidecar_file_name(video_id));
}

/// Errors of storage.
#[derive(Debug)]
pub enum StorageError {
    /// There are no directories for data and cached files.
    ProjectDirectoriesUnavailable,
    /// A file could not be read or written.
    Io(String),
    /// A file's content could not be written as JSON or read from it.
    Json(String),
}

impl StorageError {
    pub fn message(&self) -> (r: String)
        ensures
            r@ == match *self {
                StorageError::ProjectDirectoriesUnavailable =>
                    "Could not determine project directories"@,
                StorageError::Io(cause) => "I/O error: "@ + cause@,
                StorageError::Json(cause) => "JSON error: "@ + cause@,
            },
    {
        match self {
            StorageError::ProjectDirectoriesUnavailable =>
                "Could not determine project directories".to_owned(),
            StorageError::Io(cause) => "I/O error: ".to_owned().concat(cause.as_str()),
            StorageError::Json(cause) => "JSON error: ".to_owned().concat(cause.as_str()),
        }
    }
}

/// The directories that data and cached files are kept in.
#[derive(Debug, Clone)]
pub struct Storage {
    data_dir: String,
    cache_dir: String,
    thumbnails_dir: String,
    videos_dir: String,
    video_sidecars_dir: String,
    transcripts_work_dir: String,
}

/// The two directories that a [`Storage`] is rooted at.
#[verifier::ext_equal]
pub struct Roots {
    pub data: Seq<char>,
    pub cache: Seq<char>,
}

impl View for Storage {
    type V = Roots;

    closed spec fn view(&self) -> Roots {
        Roots { data: self.data_dir@, cache: self.cache_dir@ }
    }
}

/// The parts of the cache directory.
#[derive(Debug, Clone, Copy, PartialEq, Eq, Structural)]
pub enum CacheArea {
    /// The cache directory itself.
    Root,
    Thumbnails,
    Sidecars,
    Videos,
    /// Work files of transcript extraction.
    TranscriptsWork,
}

/// The path of a part of the cache directory.
pub open spec fn area_path(roots: Roots, area: CacheArea) -> Seq<char> {
    match area {
        CacheArea::Root => roots.cache,
        CacheArea::Thumbnails => joined_path(roots.cache, "thumbnails"@),
        CacheArea::Sidecars => joined_path(roots.cache, "video_sidecars"@),
        CacheArea::Videos => joined_path(roots.cache, "videos"@),
        CacheArea::TranscriptsWork => joined_path(roots.cache, "transcripts_work"@),
    }
}

/// An entry of a directory.
#[derive(Debug)]
pub struct CacheEntry {
    /// The entry's name, where it is text.
    pub name: Option<String>,
    pub is_file: bool,
    pub is_dir: bool,
}

/// What a [`CacheEntry`] holds.
#[verifier::ext_equal]
pub struct CacheEntryView {
    pub name: Option<Seq<char>>,
    pub is_file: bool,
    pub is_dir: bool,
}

impl View for CacheEntry {
    type V = CacheEntryView;

    open spec fn view(&self) -> CacheEntryView {
        CacheEntryView { name: opt_text(self.name), is_file: self.is_file, is_dir: self.is_dir }
    }
}

/// Whether an identifier was found and is in the set.
pub open spec fn found_in(id: Option<Seq<char>>, ids: Set<Seq<char>>) -> bool {
    match id {
        Some(video_id) => ids.contains(video_id),
        None => false,
    }
}

/// The video that a file among the downloads is of.
pub open spec fn download_video_id(name: Seq<char>) -> Option<Seq<char>> {
    match cached_video_id(name) {
        Some(id) => Some(id),
        None => match subtitle_video_id(name) {
            Some(id) => Some(id),
            None => info_json_video_id(name),
        },
    }
}

/// Whether cleaning up keeps an entry: downloads of watch-later videos, thumbnails and
/// sidecars of feed videos, and the cache's own files and directories.
pub open spec fn keeps_entry(
    area: CacheArea,
    entry: CacheEntryView,
    watch_later: Set<Seq<char>>,
    feed: Set<Seq<char>>,
) -> bool {
    match entry.name {
        None => false,
        Some(name) => match area {
            CacheArea::Root => {
                ||| entry.is_file && (name == "videos.json"@ || name == "feed_video_ids.json"@)
                ||| entry.is_dir && (name == "thumbnails"@ || name == "videos"@ || name
                    == "video_sidecars"@ || name == "transcripts_work"@)
            },
            CacheArea::Thumbnails => entry.is_file && found_in(thumbnail_video_id(name), feed),
            CacheArea::Sidecars => entry.is_file && found_in(sidecar_video_id(name), feed),
            CacheArea::Videos => entry.is_file && found_in(download_video_id(name), watch_later),
            CacheArea::TranscriptsWork => false,
        },
    }
}

/// The positions of the entries that cleaning up removes, of the first `n`.
pub open spec fn removed_entries(
    area: CacheArea,
    entries: Seq<CacheEntry>,
    n: nat,
    watch_later: Set<Seq<char>>,
    feed: Set<Seq<char>>,
) -> Seq<usize>
    decreases n,
{
    if n == 0 {
        Seq::empty()
    } else {
        let i = (n - 1) as nat;
        let removed = removed_entries(area, entries, i, watch_later, feed);
        if keeps_entry(area, entries[i as int]@, watch_later, feed) {
            removed
        } else {
            removed.push(i as usize)
        }
    }
}

/// What is left of the first `n` entries once those at the positions `removed` are gone.
pub open spec fn remaining_entries(
    entries: Seq<CacheEntry>,
    removed: Seq<usize>,
    n: nat,
) -> Seq<CacheEntry>
    decreases n,
{
    if n == 0 {
        Seq::empty()
    } else {
        let i = (n - 1) as nat;
        let remaining = remaining_entries(entries, removed, i);
        if removed.contains(i as usize) {
            remaining
        } else {
            remaining.push(entries[i as int])
        }
    }
}

/// What the parts of the cache hold.
#[derive(Debug)]
pub struct CacheListing {
    pub root: Vec<CacheEntry>,
    pub thumbnails: Vec<CacheEntry>,
    pub sidecars: Vec<CacheEntry>,
    pub videos: Vec<CacheEntry>,
    pub transcripts_work: Vec<CacheEntry>,
}

/// What a [`CacheListing`] holds.
#[verifier::ext_equal]
pub struct CacheView {
    pub root: Seq<CacheEntry>,
    pub thumbnails: Seq<CacheEntry>,
    pub sidecars: Seq<CacheEntry>,
    pub videos: Seq<CacheEntry>,
    pub transcripts_work: Seq<CacheEntry>,
}

impl CacheView {
    /// What one part of the cache holds.
    pub open spec fn at(self, area: CacheArea) -> Seq<CacheEntry> {
        match area {
            CacheArea::Root => self.root,
            CacheArea::Thumbnails => self.thumbnails,
            CacheArea::Sidecars => self.sidecars,
            CacheArea::Videos => self.videos,
            CacheArea::TranscriptsWork => self.transcripts_work,
        }
    }
}

impl View for CacheListing {
    type V = CacheView;

    open spec fn view(&self) -> CacheView {
        CacheView {
            root: self.root@,
            thumbnails: self.thumbnails@,
            sidecars: self.sidecars@,
            videos: self.videos@,
            transcripts_work: self.transcripts_work@,
        }
    }
}

/// How many entries the parts of the cache hold in all.
pub open spec fn entry_count(cache: CacheView) -> nat {
    cache.root.len() + cache.thumbnails.len() + cache.sidecars.len() + cache.videos.len()
        + cache.transcripts_work.len()
}

/// The positions of the entries that cleaning up removes from a part of the cache.
pub open spec fn removed_from(
    cache: CacheView,
    area: CacheArea,
    watch_later: Set<Seq<char>>,
    feed: Set<Seq<char>>,
) -> Seq<usize> {
    removed_entries(area, cache.at(area), cache.at(area).len(), watch_later, feed)
}

/// How many entries cleaning up removes from the parts of the cache in all.
pub open spec fn removed_in_all(
    cache: CacheView,
    watch_later: Set<Seq<char>>,
    feed: Set<Seq<char>>,
) -> nat {
    removed_from(cache, CacheArea::Root, watch_later, feed).len() + removed_from(
        cache,
        CacheArea::Thumbnails,
        watch_later,
        feed,
    ).len() + removed_from(cache, CacheArea::Sidecars, watch_later, feed).len() + removed_from(
        cache,
        CacheArea::Videos,
        watch_later,
        feed,
    ).len() + removed_from(cache, CacheArea::TranscriptsWork, watch_later, feed).len()
}

/// What cleaning up leaves in a part of the cache.
pub open spec fn left_in(
    cache: CacheView,
    area: CacheArea,
    watch_later: Set<Seq<char>>,
    feed: Set<Seq<char>>,
) -> Seq<CacheEntry> {
    remaining_entries(
        cache.at(area),
        removed_from(cache, area, watch_later, feed),
        cache.at(area).len(),
    )
}

/// The cache once it was cleaned up.
pub open spec fn cleaned_cache(
    cache: CacheView,
    watch_later: Set<Seq<char>>,
    feed: Set<Seq<char>>,
) -> CacheView {
    CacheView {
        root: left_in(cache, CacheArea::Root, watch_later, feed),
        thumbnails: left_in(cache, CacheArea::Thumbnails, watch_later, feed),
        sidecars: left_in(cache, CacheArea::Sidecars, watch_later, feed),
        videos: left_in(cache, CacheArea::Videos, watch_later, feed),
        transcripts_work: left_in(cache, CacheArea::TranscriptsWork, watch_later, feed),
    }
}

/// What cleaning up removes: the positions of the entries in each part of the cache, and how
/// many these are in all.
#[derive(Debug)]
pub struct CacheCleanup {
    pub root: Vec<usize>,
    pub thumbnails: Vec<usize>,
    pub sidecars: Vec<usize>,
    pub videos: Vec<usize>,
    pub transcripts_work: Vec<usize>,
    pub removed_count: usize,
}

impl CacheCleanup {
    /// The positions of the entries that go from one part of the cache.
    pub open spec fn at(self, area: CacheArea) -> Seq<usize> {
        match area {
            CacheArea::Root => self.root@,
            CacheArea::Thumbnails => self.thumbnails@,
            CacheArea::Sidecars => self.sidecars@,
            CacheArea::Videos => self.videos@,
            CacheArea::TranscriptsWork => self.transcripts_work@,
        }
    }
}

/// The paths of the files in `names` that hold a download of one video.
pub open spec fn paths_of_video(
    videos_dir: Seq<char>,
    names: Seq<Seq<char>>,
    video_id: Seq<char>,
) -> Seq<Seq<char>>
    decreases names.len(),
{
    if names.len() == 0 {
        Seq::empty()
    } else {
        let paths = paths_of_video(videos_dir, names.drop_last(), video_id);
        if cached_video_id(names.last()) == Some(video_id) {
            paths.push(joined_path(videos_dir, names.last()))
        } else {
            paths
        }
    }
}

/// The paths of the downloads in `names` of videos outside the watch-later list.
pub open spec fn paths_outside(
    videos_dir: Seq<char>,
    names: Seq<Seq<char>>,
    watch_later: Set<Seq<char>>,
) -> Seq<Seq<char>>
    decreases names.len(),
{
    if names.len() == 0 {
        Seq::empty()
    } else {
        let paths = paths_outside(videos_dir, names.drop_last(), watch_later);
        match cached_video_id(names.last()) {
            Some(id) => if watch_later.contains(id) {
                paths
            } else {
                paths.push(joined_path(videos_dir, names.last()))
            },
            None => paths,
        }
    }
}

/// The videos that the files in `names` are downloads of.
pub open spec fn downloaded_ids(names: Seq<Seq<char>>) -> Set<Seq<char>> {
    Set::new(|id: Seq<char>| exists|i: int|
        0 <= i < names.len() && cached_video_id(#[trigger] names[i]) == Some(id))
}

/// Whether a download is in another container than the one that downloads are kept in now.
pub open spec fn is_legacy(name: Seq<char>) -> bool {
    extension_of(name) != Some("mkv"@)
}

/// The videos that all downloads in `names` are legacy ones of.
pub open spec fn legacy_ids(names: Seq<Seq<char>>) -> Set<Seq<char>> {
    Set::new(
        |id: Seq<char>|
            downloaded_ids(names).contains(id) && forall|i: int|
                0 <= i < names.len() && cached_video_id(#[trigger] names[i]) == Some(id)
                    ==> is_legacy(names[i]),
    )
}

/// The paths of the legacy downloads in `names` of one video.
pub open spec fn legacy_paths(
    videos_dir: Seq<char>,
    names: Seq<Seq<char>>,
    video_id: Seq<char>,
) -> Seq<Seq<char>>
    decreases names.len(),
{
    if names.len() == 0 {
        Seq::empty()
    } else {
        let paths = legacy_paths(videos_dir, names.drop_last(), video_id);
        if cached_video_id(names.last()) == Some(video_id) && is_legacy(names.last()) {
            paths.push(joined_path(videos_dir, names.last()))
        } else {
            paths
        }
    }
}

/// Whether a download is in another container than the one that downloads are kept in now.
pub fn is_legacy_download(name: &str) -> (r: bool)
    ensures
        r == is_legacy(name@),
{
    !has_extension(name, "mkv")
}

/// Whether `list` holds the identifiers of a set, each once and in order.
pub open spec fn lists_in_order(list: Seq<Seq<char>>, ids: Set<Seq<char>>) -> bool {
    in_order(list) && list.no_duplicates() && list.to_set() == ids
}

/// The set of a saved list.
pub open spec fn loaded_ids(saved: Option<Seq<Seq<char>>>) -> Set<Seq<char>> {
    match saved {
        Some(list) => list.to_set(),
        None => Set::empty(),
    }
}

/// The identifiers of the feed, as they are saved.
#[derive(Debug)]
pub struct VideoIdsData {
    pub video_ids: Vec<String>,
}

impl Default for VideoIdsData {
    fn default() -> (r: Self)
        ensures
            r.video_ids@ == Seq::<String>::empty(),
    {
        VideoIdsData { video_ids: Vec::new() }
    }
}

impl Storage {
    /// Whether the parts of the cache lie where they belong.
    pub closed spec fn wf(&self) -> bool {
        &&& self.thumbnails_dir@ == area_path(self@, CacheArea::Thumbnails)
        &&& self.videos_dir@ == area_path(self@, CacheArea::Videos)
        &&& self.video_sidecars_dir@ == area_path(self@, CacheArea::Sidecars)
        &&& self.transcripts_work_dir@ == area_path(self@, CacheArea::TranscriptsWork)
    }

    /// Storage rooted at the given directories.
    pub fn new_at(data_dir: String, cache_dir: String) -> (r: Self)
        ensures
            r.wf(),
            r@ == (Roots { data: data_dir@, cache: cache_dir@ }),
    {
        let thumbnails_dir = join_path(cache_dir.as_str(), "thumbnails");
        let videos_dir = join_path(cache_dir.as_str(), "videos");
        let video_sidecars_dir = join_path(cache_dir.as_str(), "video_sidecars");
        let transcripts_work_dir = join_path(cache_dir.as_str(), "transcripts_work");
        Storage {
            data_dir,
            cache_dir,
            thumbnails_dir,
            videos_dir,
            video_sidecars_dir,
            transcripts_work_dir,
        }
    }

    /// The directory of user data.
    pub fn data_dir(&self) -> (r: &str)
        ensures
            r@ == self@.data,
    {
        self.data_dir.as_str()
    }

    /// The path of a part of the cache directory.
    pub fn area_dir(&self, area: CacheArea) -> (r: &str)
        requires
            self.wf(),
        ensures
            r@ == area_path(self@, area),
    {
        match area {
            CacheArea::Root => self.cache_dir.as_str(),
            CacheArea::Thumbnails => self.thumbnails_dir.as_str(),
            CacheArea::Sidecars => self.video_sidecars_dir.as_str(),
            CacheArea::Videos => self.videos_dir.as_str(),
            CacheArea::TranscriptsWork => self.transcripts_work_dir.as_str(),
        }
    }

    /// The directory for work files of transcript extraction.
    pub fn transcripts_work_dir(&self) -> (r: &str)
        requires
            self.wf(),
        ensures
            r@ == area_path(self@, CacheArea::TranscriptsWork),
    {
        self.transcripts_work_dir.as_str()
    }

    /// The file of the saved watch-later list.
    pub fn watch_later_path(&self) -> (path: String)
        ensures
            path@ == joined_path(self@.data, "watch_later.json"@),
    {
        join_path(self.data_dir.as_str(), "watch_later.json")
    }

    /// The file of the cached videos.
    pub fn videos_cache_path(&self) -> (path: String)
        ensures
            path@ == joined_path(self@.cache, "videos.json"@),
    {
        join_path(self.cache_dir.as_str(), "videos.json")
    }

    /// The file of the cached feed identifiers.
    pub fn feed_video_ids_path(&self) -> (path: String)
        ensures
            path@ == joined_path(self@.cache, "feed_video_ids.json"@),
    {
        join_path(self.cache_dir.as_str(), "feed_video_ids.json")
    }

    /// The file of a video's thumbnail.
    pub fn thumbnail_path(&self, video_id: &str) -> (path: String)
        requires
            self.wf(),
        ensures
            path@ == joined_path(
                area_path(self@, CacheArea::Thumbnails),
                thumbnail_file_name(video_id@),
            ),
    {
        let name = video_id.to_owned().concat(".jpg");
        join_path(self.thumbnails_dir.as_str(), name.as_str())
    }

    /// The file that a video is downloaded to.
    pub fn video_path(&self, video_id: &str, title: &str) -> (path: String)
        requires
            self.wf(),
        ensures
            path@ == joined_path(
                area_path(self@, CacheArea::Videos),
                video_file_name(video_id@, title@),
            ),
    {
        let name = sanitize_filename(title).concat("_").concat(video_id).concat(".mkv");
        join_path(self.videos_dir.as_str(), name.as_str())
    }

    /// The file of a video's sidecar.
    pub fn video_sidecar_path(&self, video_id: &str) -> (path: String)
        requires
            self.wf(),
        ensures
            path@ == joined_path(
                area_path(self@, CacheArea::Sidecars),
                sidecar_file_name(video_id@),
            ),
    {
        let name = video_id.to_owned().concat(".json");
        join_path(self.video_sidecars_dir.as_str(), name.as_str())
    }

    /// The first of the files `names` among the downloads that is of `video_id`, whatever its
    /// title and extension.
    pub fn find_video_path(&self, names: &Vec<String>, video_id: &str) -> (r: Option<String>)
        requires
            self.wf(),
        ensures
            match r {
                Some(path) => exists|i: int|
                    {
                        &&& 0 <= i < names.len()
                        &&& cached_video_id(#[trigger] names@[i]@) == Some(video_id@)
                        &&& path@ == joined_path(area_path(self@, CacheArea::Videos), names@[i]@)
                        &&& forall|j: int|
                            0 <= j < i ==> cached_video_id(#[trigger] names@[j]@) != Some(video_id@)
                    },
                None => forall|j: int|
                    0 <= j < names.len() ==> cached_video_id(#[trigger] names@[j]@) != Some(
                        video_id@,
                    ),
            },
    {
        let mut i: usize = 0;
        while i < names.len()
            invariant
                i <= names.len(),
                self.wf(),
                forall|j: int|
                    0 <= j < i ==> cached_video_id(#[trigger] names@[j]@) != Some(video_id@),
            decreases names.len() - i,
        {
            if let Some(id) = cached_video_id_for_path(names[i].as_str()) {
                if same(id, video_id) {
                    return Some(join_path(self.videos_dir.as_str(), names[i].as_str()));
                }
            }
            i += 1;
        }
        None
    }

    /// The first of the files `names` among the downloads that holds subtitles of `video_id`.
    pub fn find_subtitle_path(&self, names: &Vec<String>, video_id: &str) -> (r: Option<String>)
        requires
            self.wf(),
        ensures
            match r {
                Some(path) => exists|i: int|
                    {
                        &&& 0 <= i < names.len()
                        &&& subtitle_video_id(#[trigger] names@[i]@) == Some(video_id@)
                        &&& path@ == joined_path(area_path(self@, CacheArea::Videos), names@[i]@)
                        &&& forall|j: int|
                            0 <= j < i ==> subtitle_video_id(#[trigger] names@[j]@) != Some(
                                video_id@,
                            )
                    },
                None => forall|j: int|
                    0 <= j < names.len() ==> subtitle_video_id(#[trigger] names@[j]@) != Some(
                        video_id@,
                    ),
            },
    {
        let mut i: usize = 0;
        while i < names.len()
            invariant
                i <= names.len(),
                self.wf(),
                forall|j: int|
                    0 <= j < i ==> subtitle_video_id(#[trigger] names@[j]@) != Some(video_id@),
            decreases names.len() - i,
        {
            if let Some(id) = video_id_from_subtitle_path(names[i].as_str()) {
                if same(id.as_str(), video_id) {
                    return Some(join_path(self.videos_dir.as_str(), names[i].as_str()));
                }
            }
            i += 1;
        }
        None
    }

    /// The videos that the files `names` among the downloads are of.
    pub fn cached_video_ids(names: &Vec<String>) -> (ids: IdSet)
        ensures
            ids.wf(),
            ids@ == downloaded_ids(texts(names@)),
    {
        let ghost all = texts(names@);
        let mut ids = IdSet::new();
        let mut i: usize = 0;
        assert(ids@ =~= downloaded_ids(all.take(0)));
        while i < names.len()
            invariant
                i <= names.len(),
                all == texts(names@),
                ids.wf(),
                ids@ == downloaded_ids(all.take(i as int)),
            decreases names.len() - i,
        {
            let ghost before = ids@;
            let ghost next = all.take(i + 1);
            let found = cached_video_id_for_path(names[i].as_str());
            if let Some(id) = found {
                ids.insert(id);
            }
            proof {
                assert(next[i as int] == names@[i as int]@);
                assert forall|id: Seq<char>| downloaded_ids(next).contains(id) == ids@.contains(
                    id,
                ) by {
                    if before.contains(id) {
                        let k = choose|k: int|
                            0 <= k < all.take(i as int).len() && cached_video_id(
                                #[trigger] all.take(i as int)[k],
                            ) == Some(id);
                        assert(next[k] == all.take(i as int)[k]);
                    }
                    if downloaded_ids(next).contains(id) {
                        let k = choose|k: int|
                            0 <= k < next.len() && cached_video_id(#[trigger] next[k]) == Some(id);
                        if k < i {
                            assert(all.take(i as int)[k] == next[k]);
                            assert(before.contains(id));
                        }
                    }
                }
                assert(ids@ =~= downloaded_ids(next));
            }
            i += 1;
        }
        assert(all.take(all.len() as int) =~= all);
        ids
    }

    /// The files to delete so that no download of `video_id` is left: all of `names` that are
    /// of it, across titles and extensions.
    pub fn remove_cached_video_files(&self, names: &Vec<String>, video_id: &str) -> (paths: Vec<
        String,
    >)
        requires
            self.wf(),
        ensures
            texts(paths@) == paths_of_video(
                area_path(self@, CacheArea::Videos),
                texts(names@),
                video_id@,
            ),
    {
        let ghost all = texts(names@);
        let ghost dir = area_path(self@, CacheArea::Videos);
        let mut paths: Vec<String> = Vec::new();
        let mut i: usize = 0;
        assert(texts(paths@) =~= paths_of_video(dir, all.take(0), video_id@));
        while i < names.len()
            invariant
                i <= names.len(),
                self.wf(),
                all == texts(names@),
                dir == area_path(self@, CacheArea::Videos),
                texts(paths@) == paths_of_video(dir, all.take(i as int), video_id@),
            decreases names.len() - i,
        {
            let ghost before = texts(paths@);
            assert(all.take(i + 1).drop_last() =~= all.take(i as int));
            assert(all.take(i + 1).last() == names@[i as int]@);
            let matches = match cached_video_id_for_path(names[i].as_str()) {
                Some(id) => same(id, video_id),
                None => false,
            };
            if matches {
                let path = join_path(self.videos_dir.as_str(), names[i].as_str());
                paths.push(path);
                assert(texts(paths@) =~= before.push(path@));
            }
            i += 1;
        }
        assert(all.take(all.len() as int) =~= all);
        paths
    }

    /// The videos that the files `names` among the downloads are of, and those of them that
    /// there are only legacy downloads of.
    pub fn scan_downloaded_video_ids(names: &Vec<String>) -> (r: (IdSet, IdSet))
        ensures
            r.0.wf() && r.1.wf(),
            r.0@ == downloaded_ids(texts(names@)),
            r.1@ == legacy_ids(texts(names@)),
    {
        let ghost all = texts(names@);
        let downloaded = Storage::cached_video_ids(names);
        let mut legacy = IdSet::new();
        let mut i: usize = 0;
        while i < names.len()
            invariant
                i <= names.len(),
                all == texts(names@),
                legacy.wf(),
                forall|id: Seq<char>| #[trigger] legacy@.contains(id) ==> legacy_ids(all).contains(id),
                forall|k: int, id: Seq<char>|
                    0 <= k < i && cached_video_id(#[trigger] all[k]) == Some(id)
                        && #[trigger] legacy_ids(all).contains(id) ==> legacy@.contains(id),
            decreases names.len() - i,
        {
            assert(all[i as int] == names@[i as int]@);
            if let Some(id) = cached_video_id_for_path(names[i].as_str()) {
                assert(downloaded_ids(all).contains(id@));
                if Storage::has_only_legacy_downloads(names, id) {
                    legacy.insert(id);
                }
            }
            i += 1;
        }
        proof {
            assert forall|id: Seq<char>| legacy_ids(all).contains(id) implies legacy@.contains(id) by {
                let k = choose|k: int|
                    0 <= k < all.len() && cached_video_id(#[trigger] all[k]) == Some(id);
                assert(cached_video_id(all[k]) == Some(id));
            }
            assert(legacy@ =~= legacy_ids(all));
        }
        (downloaded, legacy)
    }

    fn has_only_legacy_downloads(names: &Vec<String>, video_id: &str) -> (r: bool)
        ensures
            r == forall|i: int|
                0 <= i < names.len() && cached_video_id(#[trigger] texts(names@)[i]) == Some(
                    video_id@,
                ) ==> is_legacy(texts(names@)[i]),
    {
        let mut i: usize = 0;
        while i < names.len()
            invariant
                i <= names.len(),
                forall|k: int|
                    0 <= k < i && cached_video_id(#[trigger] texts(names@)[k]) == Some(video_id@)
                        ==> is_legacy(texts(names@)[k]),
            decreases names.len() - i,
        {
            assert(texts(names@)[i as int] == names@[i as int]@);
            if let Some(id) = cached_video_id_for_path(names[i].as_str()) {
                if same(id, video_id) && !is_legacy_download(names[i].as_str()) {
                    return false;
                }
            }
            i += 1;
        }
        true
    }

    /// The paths of the files `names` among the downloads that hold a legacy download of
    /// `video_id`, to be removed once there is another.
    pub fn remove_legacy_video_files(&self, names: &Vec<String>, video_id: &str) -> (paths: Vec<
        String,
    >)
        requires
            self.wf(),
        ensures
            texts(paths@) == legacy_paths(
                area_path(self@, CacheArea::Videos),
                texts(names@),
                video_id@,
            ),
    {
        let ghost all = texts(names@);
        let ghost dir = area_path(self@, CacheArea::Videos);
        let mut paths: Vec<String> = Vec::new();
        let mut i: usize = 0;
        assert(texts(paths@) =~= legacy_paths(dir, all.take(0), video_id@));
        while i < names.len()
            invariant
                i <= names.len(),
                self.wf(),
                all == texts(names@),
                dir == area_path(self@, CacheArea::Videos),
                texts(paths@) == legacy_paths(dir, all.take(i as int), video_id@),
            decreases names.len() - i,
        {
            let ghost before = texts(paths@);
            assert(all.take(i + 1).drop_last() =~= all.take(i as int));
            assert(all.take(i + 1).last() == names@[i as int]@);
            let matches = match cached_video_id_for_path(names[i].as_str()) {
                Some(id) => same(id, video_id) && is_legacy_download(names[i].as_str()),
                None => false,
            };
            if matches {
                let path = join_path(self.videos_dir.as_str(), names[i].as_str());
                paths.push(path);
                assert(texts(paths@) =~= before.push(path@));
            }
            i += 1;
        }
        assert(all.take(all.len() as int) =~= all);
        paths
    }

    /// The downloads to delete so that only watch-later videos keep theirs.
    pub fn prune_cached_videos_not_in_watch_later(
        &self,
        names: &Vec<String>,
        watch_later: &IdSet,
    ) -> (paths: Vec<String>)
        requires
            self.wf(),
        ensures
            texts(paths@) == paths_outside(
                area_path(self@, CacheArea::Videos),
                texts(names@),
                watch_later@,
            ),
    {
        let ghost all = texts(names@);
        let ghost dir = area_path(self@, CacheArea::Videos);
        let mut paths: Vec<String> = Vec::new();
        let mut i: usize = 0;
        assert(texts(paths@) =~= paths_outside(dir, all.take(0), watch_later@));
        while i < names.len()
            invariant
                i <= names.len(),
                self.wf(),
                all == texts(names@),
                dir == area_path(self@, CacheArea::Videos),
                texts(paths@) == paths_outside(dir, all.take(i as int), watch_later@),
            decreases names.len() - i,
        {
            let ghost before = texts(paths@);
            assert(all.take(i + 1).drop_last() =~= all.take(i as int));
            assert(all.take(i + 1).last() == names@[i as int]@);
            let outside = match cached_video_id_for_path(names[i].as_str()) {
                Some(id) => !watch_later.contains(id),
                None => false,
            };
            if outside {
                let path = join_path(self.videos_dir.as_str(), names[i].as_str());
                paths.push(path);
                assert(texts(paths@) =~= before.push(path@));
            }
            i += 1;
        }
        assert(all.take(all.len() as int) =~= all);
        paths
    }

    /// Whether cleaning up keeps an entry of a part of the cache.
    pub fn keeps_cache_entry(
        area: CacheArea,
        entry: &CacheEntry,
        watch_later: &IdSet,
        feed_video_ids: &IdSet,
    ) -> (keep: bool)
        ensures
            keep == keeps_entry(area, entry@, watch_later@, feed_video_ids@),
    {
        let name = match &entry.name {
            Some(name) => name.as_str(),
            None => {
                return false;
            },
        };
        match area {
            CacheArea::Root => {
                (entry.is_file && (same(name, "videos.json") || same(name, "feed_video_ids.json")))
                    || (entry.is_dir && (same(name, "thumbnails") || same(name, "videos") || same(
                    name,
                    "video_sidecars",
                ) || same(name, "transcripts_work")))
            },
            CacheArea::Thumbnails => {
                entry.is_file && match video_id_from_thumbnail_path(name) {
                    Some(id) => feed_video_ids.contains(id),
                    None => false,
                }
            },
            CacheArea::Sidecars => {
                entry.is_file && match video_id_from_sidecar_path(name) {
                    Some(id) => feed_video_ids.contains(id),
                    None => false,
                }
            },
            CacheArea::Videos => {
                if !entry.is_file {
                    return false;
                }
                if let Some(id) = cached_video_id_for_path(name) {
                    return watch_later.contains(id);
                }
                if let Some(id) = video_id_from_subtitle_path(name) {
                    return watch_later.contains(id.as_str());
                }
                match video_id_from_info_json_path(name) {
                    Some(id) => watch_later.contains(id),
                    None => false,
                }
            },
            CacheArea::TranscriptsWork => false,
        }
    }

    /// The positions of the entries of a part of the cache that nothing refers to and that
    /// cleaning up removes.
    fn unreferenced_entries(
        area: CacheArea,
        entries: &Vec<CacheEntry>,
        watch_later: &IdSet,
        feed_video_ids: &IdSet,
    ) -> (removed: Vec<usize>)
        ensures
            removed@ == removed_entries(
                area,
                entries@,
                entries@.len(),
                watch_later@,
                feed_video_ids@,
            ),
    {
        let mut removed: Vec<usize> = Vec::new();
        let mut i: usize = 0;
        while i < entries.len()
            invariant
                i <= entries.len(),
                removed@ == removed_entries(
                    area,
                    entries@,
                    i as nat,
                    watch_later@,
                    feed_video_ids@,
                ),
            decreases entries.len() - i,
        {
            if !Storage::keeps_cache_entry(area, &entries[i], watch_later, feed_video_ids) {
                removed.push(i);
            }
            i += 1;
        }
        removed
    }

    /// Finds what neither the feed nor the watch-later list refers to, in all parts of the
    /// cache.
    pub fn cleanup_unreferenced_cache_files(
        cache: &CacheListing,
        watch_later: &IdSet,
        feed_video_ids: &IdSet,
    ) -> (cleanup: CacheCleanup)
        requires
            entry_count(cache@) <= usize::MAX,
        ensures
            forall|area: CacheArea| #[trigger]
                cleanup.at(area) == removed_from(cache@, area, watch_later@, feed_video_ids@),
            cleanup.removed_count == removed_in_all(cache@, watch_later@, feed_video_ids@),
    {
        proof {
            lemma_removed_and_left(cache@, CacheArea::Root, watch_later@, feed_video_ids@);
            lemma_removed_and_left(cache@, CacheArea::Thumbnails, watch_later@, feed_video_ids@);
            lemma_removed_and_left(cache@, CacheArea::Sidecars, watch_later@, feed_video_ids@);
            lemma_removed_and_left(cache@, CacheArea::Videos, watch_later@, feed_video_ids@);
            lemma_removed_and_left(cache@, CacheArea::TranscriptsWork, watch_later@, feed_video_ids@);
        }
        let root = Storage::unreferenced_entries(
            CacheArea::Root,
            &cache.root,
            watch_later,
            feed_video_ids,
        );
        let thumbnails = Storage::unreferenced_entries(
            CacheArea::Thumbnails,
            &cache.thumbnails,
            watch_later,
            feed_video_ids,
        );
        let sidecars = Storage::unreferenced_entries(
            CacheArea::Sidecars,
            &cache.sidecars,
            watch_later,
            feed_video_ids,
        );
        let videos = Storage::unreferenced_entries(
            CacheArea::Videos,
            &cache.videos,
            watch_later,
            feed_video_ids,
        );
        let transcripts_work = Storage::unreferenced_entries(
            CacheArea::TranscriptsWork,
            &cache.transcripts_work,
            watch_later,
            feed_video_ids,
        );
        let removed_count: usize = root.len() + thumbnails.len() + sidecars.len() + videos.len()
            + transcripts_work.len();
        CacheCleanup { root, thumbnails, sidecars, videos, transcripts_work, removed_count }
    }

    /// The watch-later set of the saved list; empty where none was saved or read.
    pub fn load_watch_later(saved: Option<WatchLaterData>) -> (ids: IdSet)
        ensures
            ids.wf(),
            ids@ == loaded_ids(match saved {
                Some(data) => Some(texts(data.video_ids@)),
                None => None,
            }),
    {
        match saved {
            Some(data) => IdSet::from_ids(&data.video_ids),
            None => IdSet::new(),
        }
    }

    /// The watch-later list to save: the identifiers in order.
    pub fn save_watch_later(video_ids: &IdSet) -> (data: WatchLaterData)
        requires
            video_ids.wf(),
        ensures
            lists_in_order(texts(data.video_ids@), video_ids@),
    {
        WatchLaterData { video_ids: video_ids.sorted() }
    }

    /// The feed identifiers that were saved, where they were saved and read.
    pub fn load_feed_video_ids(saved: Option<VideoIdsData>) -> (ids: Option<Vec<String>>)
        ensures
            match saved {
                Some(data) => ids matches Some(list) && texts(list@) == texts(data.video_ids@),
                None => ids is None,
            },
    {
        match saved {
            Some(data) => Some(data.video_ids),
            None => None,
        }
    }

    /// The feed identifiers to save, in display order.
    pub fn save_feed_video_ids(video_ids: &Vec<String>) -> (data: VideoIdsData)
        ensures
            texts(data.video_ids@) == texts(video_ids@),
    {
        let ids = video_ids.clone();
        assert(ids@ =~= video_ids@);
        VideoIdsData { video_ids: ids }
    }
}

/// The watch-later set is what was saved of it, and one set is saved in one way only.
pub proof fn watch_later_survives_saving(
    ids: Set<Seq<char>>,
    list: Seq<Seq<char>>,
    other: Seq<Seq<char>>,
)
    requires
        lists_in_order(list, ids),
        lists_in_order(other, ids),
    ensures
        loaded_ids(Some(list)) == ids,
        list == other,
{
    ordered_listing_is_unique(list, other);
}

/// Cleaning up keeps a file that a video was downloaded to exactly if the video is on the
/// watch-later list.
pub proof fn cleanup_keeps_downloads_of_watch_later_videos(
    video_id: Seq<char>,
    title: Seq<char>,
    watch_later: Set<Seq<char>>,
    feed: Set<Seq<char>>,
)
    requires
        is_video_id(video_id),
    ensures
        keeps_entry(
            CacheArea::Videos,
            CacheEntryView {
                name: Some(video_file_name(video_id, title)),
                is_file: true,
                is_dir: false,
            },
            watch_later,
            feed,
        ) <==> watch_later.contains(video_id),
{
    video_file_names_give_back_the_id(video_id, title);
}

/// Cleaning up keeps a video's thumbnail and its sidecar exactly if the video is in the feed,
/// whatever is on the watch-later list.
pub proof fn cleanup_keeps_card_files_of_feed_videos(
    video_id: Seq<char>,
    watch_later: Set<Seq<char>>,
    feed: Set<Seq<char>>,
)
    requires
        is_video_id(video_id),
    ensures
        keeps_entry(
            CacheArea::Thumbnails,
            CacheEntryView {
                name: Some(thumbnail_file_name(video_id)),
                is_file: true,
                is_dir: false,
            },
            watch_later,
            feed,
        ) <==> feed.contains(video_id),
        keeps_entry(
            CacheArea::Sidecars,
            CacheEntryView {
                name: Some(sidecar_file_name(video_id)),
                is_file: true,
                is_dir: false,
            },
            watch_later,
            feed,
        ) <==> feed.contains(video_id),
{
    thumbnail_file_names_give_back_the_id(video_id);
    sidecar_file_names_give_back_the_id(video_id);
}

proof fn lemma_removed_entries(
    area: CacheArea,
    entries: Seq<CacheEntry>,
    n: nat,
    watch_later: Set<Seq<char>>,
    feed: Set<Seq<char>>,
    i: usize,
)
    requires
        n <= entries.len() <= usize::MAX,
    ensures
        removed_entries(area, entries, n, watch_later, feed).contains(i) <==> (i < n
            && !keeps_entry(area, entries[i as int]@, watch_later, feed)),
    decreases n,
{
    if n > 0 {
        let last = (n - 1) as nat;
        let before = removed_entries(area, entries, last, watch_later, feed);
        let after = removed_entries(area, entries, n, watch_later, feed);
        lemma_removed_entries(area, entries, last, watch_later, feed, i);
        if !keeps_entry(area, entries[last as int]@, watch_later, feed) {
            assert(after == before.push(last as usize));
            assert(after[before.len() as int] == last as usize);
            if before.contains(i) {
                let k = choose|k: int| 0 <= k < before.len() && before[k] == i;
                assert(after[k] == i);
            }
            if after.contains(i) && i != last {
                let k = choose|k: int| 0 <= k < after.len() && after[k] == i;
                assert(before[k] == i);
            }
        } else {
            assert(after == before);
        }
    }
}

proof fn lemma_remaining_are_kept(
    area: CacheArea,
    entries: Seq<CacheEntry>,
    n: nat,
    watch_later: Set<Seq<char>>,
    feed: Set<Seq<char>>,
)
    requires
        n <= entries.len() <= usize::MAX,
    ensures
        ({
            let removed = removed_entries(area, entries, entries.len(), watch_later, feed);
            let left = remaining_entries(entries, removed, n);
            forall|i: int|
                0 <= i < left.len() ==> keeps_entry(area, (#[trigger] left[i])@, watch_later, feed)
        }),
    decreases n,
{
    if n > 0 {
        let last = (n - 1) as nat;
        lemma_remaining_are_kept(area, entries, last, watch_later, feed);
        lemma_removed_entries(area, entries, entries.len(), watch_later, feed, last as usize);
        let removed = removed_entries(area, entries, entries.len(), watch_later, feed);
        let before = remaining_entries(entries, removed, last);
        let left = remaining_entries(entries, removed, n);
        assert forall|i: int| 0 <= i < left.len() implies keeps_entry(
            area,
            (#[trigger] left[i])@,
            watch_later,
            feed,
        ) by {
            if i < before.len() {
                assert(left[i] == before[i]);
            }
        }
    }
}

proof fn lemma_kept_entries_stay(
    area: CacheArea,
    entries: Seq<CacheEntry>,
    n: nat,
    watch_later: Set<Seq<char>>,
    feed: Set<Seq<char>>,
)
    requires
        n <= entries.len(),
        forall|i: int|
            0 <= i < entries.len() ==> keeps_entry(
                area,
                (#[trigger] entries[i])@,
                watch_later,
                feed,
            ),
    ensures
        removed_entries(area, entries, n, watch_later, feed) == Seq::<usize>::empty(),
    decreases n,
{
    if n > 0 {
        lemma_kept_entries_stay(area, entries, (n - 1) as nat, watch_later, feed);
        assert(keeps_entry(area, entries[n - 1]@, watch_later, feed));
    }
}

proof fn lemma_removed_and_remaining(
    area: CacheArea,
    entries: Seq<CacheEntry>,
    n: nat,
    watch_later: Set<Seq<char>>,
    feed: Set<Seq<char>>,
)
    requires
        n <= entries.len() <= usize::MAX,
    ensures
        removed_entries(area, entries, n, watch_later, feed).len() + remaining_entries(
            entries,
            removed_entries(area, entries, entries.len(), watch_later, feed),
            n,
        ).len() == n,
    decreases n,
{
    if n > 0 {
        let last = (n - 1) as nat;
        lemma_removed_and_remaining(area, entries, last, watch_later, feed);
        lemma_removed_entries(area, entries, entries.len(), watch_later, feed, last as usize);
    }
}

proof fn lemma_nothing_removed(entries: Seq<CacheEntry>, n: nat)
    requires
        n <= entries.len(),
    ensures
        remaining_entries(entries, Seq::empty(), n) == entries.take(n as int),
    decreases n,
{
    if n > 0 {
        lemma_nothing_removed(entries, (n - 1) as nat);
        assert(entries.take(n as int) =~= entries.take(n - 1).push(entries[n - 1]));
    } else {
        assert(entries.take(0) =~= Seq::empty());
    }
}

proof fn lemma_removed_and_left(
    cache: CacheView,
    area: CacheArea,
    watch_later: Set<Seq<char>>,
    feed: Set<Seq<char>>,
)
    requires
        cache.at(area).len() <= usize::MAX,
    ensures
        removed_from(cache, area, watch_later, feed).len() + left_in(
            cache,
            area,
            watch_later,
            feed,
        ).len() == cache.at(area).len(),
{
    lemma_removed_and_remaining(area, cache.at(area), cache.at(area).len(), watch_later, feed);
}

/// Cleaning up accounts for every entry: in each part of the cache it removes those that it
/// does not keep and leaves the others, and so it is over all the parts.
pub proof fn cleanup_accounts_for_every_entry(
    cache: CacheView,
    watch_later: Set<Seq<char>>,
    feed: Set<Seq<char>>,
)
    requires
        forall|area: CacheArea| (#[trigger] cache.at(area)).len() <= usize::MAX,
    ensures
        forall|area: CacheArea|
            removed_from(cache, area, watch_later, feed).len() + cleaned_cache(
                cache,
                watch_later,
                feed,
            ).at(area).len() == (#[trigger] cache.at(area)).len(),
        forall|area: CacheArea, i: usize| #[trigger]
            removed_from(cache, area, watch_later, feed).contains(i) <==> (i < cache.at(area).len()
                && !keeps_entry(area, cache.at(area)[i as int]@, watch_later, feed)),
        removed_in_all(cache, watch_later, feed) + entry_count(
            cleaned_cache(cache, watch_later, feed),
        ) == entry_count(cache),
{
    let cleaned = cleaned_cache(cache, watch_later, feed);
    assert forall|area: CacheArea|
        removed_from(cache, area, watch_later, feed).len() + cleaned.at(area).len() == (
        #[trigger] cache.at(area)).len() by {
        lemma_removed_and_left(cache, area, watch_later, feed);
        assert(cleaned.at(area) == left_in(cache, area, watch_later, feed));
    }
    assert(cache.at(CacheArea::Root) == cache.root);
    assert(cache.at(CacheArea::Thumbnails) == cache.thumbnails);
    assert(cache.at(CacheArea::Sidecars) == cache.sidecars);
    assert(cache.at(CacheArea::Videos) == cache.videos);
    assert(cache.at(CacheArea::TranscriptsWork) == cache.transcripts_work);
    assert forall|area: CacheArea, i: usize| #[trigger]
        removed_from(cache, area, watch_later, feed).contains(i) <==> (i < cache.at(area).len()
            && !keeps_entry(area, cache.at(area)[i as int]@, watch_later, feed)) by {
        let entries = cache.at(area);
        lemma_removed_entries(area, entries, entries.len(), watch_later, feed, i);
    }
}

/// Cleaning up a second time removes nothing and leaves the cache as it is.
pub proof fn cleanup_is_done_at_once(
    cache: CacheView,
    watch_later: Set<Seq<char>>,
    feed: Set<Seq<char>>,
)
    requires
        forall|area: CacheArea| (#[trigger] cache.at(area)).len() <= usize::MAX,
    ensures
        forall|area: CacheArea| #[trigger]
            removed_from(cleaned_cache(cache, watch_later, feed), area, watch_later, feed) == Seq::<
                usize,
            >::empty(),
        removed_in_all(cleaned_cache(cache, watch_later, feed), watch_later, feed) == 0,
        cleaned_cache(cleaned_cache(cache, watch_later, feed), watch_later, feed) == cleaned_cache(
            cache,
            watch_later,
            feed,
        ),
{
    let cleaned = cleaned_cache(cache, watch_later, feed);
    assert forall|area: CacheArea|
        (#[trigger] removed_from(cleaned, area, watch_later, feed) == Seq::<usize>::empty())
            && left_in(cleaned, area, watch_later, feed) == cleaned.at(area) by {
        let entries = cache.at(area);
        let left = cleaned.at(area);
        assert(left == left_in(cache, area, watch_later, feed));
        lemma_remaining_are_kept(area, entries, entries.len(), watch_later, feed);
        lemma_kept_entries_stay(area, left, left.len(), watch_later, feed);
        lemma_nothing_removed(left, left.len());
        assert(left.take(left.len() as int) =~= left);
    }
    assert(removed_from(cleaned, CacheArea::Root, watch_later, feed).len() == 0);
    assert(removed_from(cleaned, CacheArea::Thumbnails, watch_later, feed).len() == 0);
    assert(removed_from(cleaned, CacheArea::Sidecars, watch_later, feed).len() == 0);
    assert(removed_from(cleaned, CacheArea::Videos, watch_later, feed).len() == 0);
    assert(removed_from(cleaned, CacheArea::TranscriptsWork, watch_later, feed).len() == 0);
}

/// Cleaning up leaves only what the program refers to: below the cache directory its own two
/// files and its own directories, thumbnails and sidecars of feed videos, downloads of
/// watch-later videos, and no work on transcripts.
pub proof fn cleanup_leaves_only_what_is_referred_to(
    cache: CacheView,
    watch_later: Set<Seq<char>>,
    feed: Set<Seq<char>>,
)
    requires
        forall|area: CacheArea| (#[trigger] cache.at(area)).len() <= usize::MAX,
    ensures
        ({
            let left = cleaned_cache(cache, watch_later, feed);
            &&& forall|i: int|
                #![trigger left.root[i]]
                0 <= i < left.root.len() ==> (left.root[i]@.name matches Some(name) && (
                left.root[i].is_file && (name == "videos.json"@ || name == "feed_video_ids.json"@)
                    || left.root[i].is_dir && (name == "thumbnails"@ || name == "videos"@ || name
                    == "video_sidecars"@ || name == "transcripts_work"@)))
            &&& forall|i: int|
                #![trigger left.thumbnails[i]]
                0 <= i < left.thumbnails.len() ==> left.thumbnails[i].is_file && (
                left.thumbnails[i]@.name matches Some(name) && found_in(thumbnail_video_id(name), feed))
            &&& forall|i: int|
                #![trigger left.sidecars[i]]
                0 <= i < left.sidecars.len() ==> left.sidecars[i].is_file && (
                left.sidecars[i]@.name matches Some(name) && found_in(sidecar_video_id(name), feed))
            &&& forall|i: int|
                #![trigger left.videos[i]]
                0 <= i < left.videos.len() ==> left.videos[i].is_file && (
                left.videos[i]@.name matches Some(name) && found_in(download_video_id(name), watch_later))
            &&& left.transcripts_work.len() == 0
        }),
{
    let left = cleaned_cache(cache, watch_later, feed);
    assert(cache.at(CacheArea::Root).len() <= usize::MAX);
    assert(cache.at(CacheArea::Thumbnails).len() <= usize::MAX);
    assert(cache.at(CacheArea::Sidecars).len() <= usize::MAX);
    assert(cache.at(CacheArea::Videos).len() <= usize::MAX);
    assert(cache.at(CacheArea::TranscriptsWork).len() <= usize::MAX);
    lemma_remaining_are_kept(CacheArea::Root, cache.root, cache.root.len(), watch_later, feed);
    lemma_remaining_are_kept(
        CacheArea::Thumbnails,
        cache.thumbnails,
        cache.thumbnails.len(),
        watch_later,
        feed,
    );
    lemma_remaining_are_kept(
        CacheArea::Sidecars,
        cache.sidecars,
        cache.sidecars.len(),
        watch_later,
        feed,
    );
    lemma_remaining_are_kept(
        CacheArea::Videos,
        cache.videos,
        cache.videos.len(),
        watch_later,
        feed,
    );
    lemma_remaining_are_kept(
        CacheArea::TranscriptsWork,
        cache.transcripts_work,
        cache.transcripts_work.len(),
        watch_later,
        feed,
    );
    if left.transcripts_work.len() > 0 {
        assert(keeps_entry(
            CacheArea::TranscriptsWork,
            left.transcripts_work[0]@,
            watch_later,
            feed,
        ));
    }
}

/// Cleaning up never removes the cache's own files and directories.
pub proof fn cleanup_keeps_the_cache_layout(watch_later: Set<Seq<char>>, feed: Set<Seq<char>>)
    ensures
        forall|name: Seq<char>|
            name == "videos.json"@ || name == "feed_video_ids.json"@ ==> #[trigger] keeps_entry(
                CacheArea::Root,
                CacheEntryView { name: Some(name), is_file: true, is_dir: false },
                watch_later,
                feed,
            ),
        forall|name: Seq<char>|
            name == "thumbnails"@ || name == "videos"@ || name == "video_sidecars"@ || name
                == "transcripts_work"@ ==> #[trigger] keeps_entry(
                CacheArea::Root,
                CacheEntryView { name: Some(name), is_file: false, is_dir: true },
                watch_later,
                feed,
            ),
{
}

/// What is kept of a video beside the list of videos.
#[derive(Debug, Clone)]
pub struct VideoMetadataSidecar {
    pub transcript: Option<String>,
    pub ai_summary: Option<String>,
    pub watched: bool,
}

/// What a [`VideoMetadataSidecar`] holds.
#[verifier::ext_equal]
pub struct SidecarView {
    pub transcript: Option<Seq<char>>,
    pub ai_summary: Option<Seq<char>>,
    pub watched: bool,
}

impl View for VideoMetadataSidecar {
    type V = SidecarView;

    open spec fn view(&self) -> SidecarView {
        SidecarView {
            transcript: opt_text(self.transcript),
            ai_summary: opt_text(self.ai_summary),
            watched: self.watched,
        }
    }
}

/// The sidecar of a video that has none.
pub open spec fn empty_sidecar() -> SidecarView {
    SidecarView { transcript: None, ai_summary: None, watched: false }
}

/// The sidecar to change: the one that was saved, or the empty one where there is none;
/// nothing where what was saved cannot be read.
pub open spec fn sidecar_to_change(current: Saved<VideoMetadataSidecar>) -> Option<SidecarView> {
    match current {
        Saved::Found(sidecar) => Some(sidecar@),
        Saved::Missing => Some(empty_sidecar()),
        Saved::Damaged => None,
    }
}

/// Whether `r` is the error that a damaged sidecar is answered with.
pub open spec fn reports_damage(r: Result<VideoMetadataSidecar, StorageError>) -> bool {
    r matches Err(StorageError::Json(cause)) && cause@ == "video sidecar cannot be read"@
}

/// The first value that is there.
pub open spec fn or_else<T>(first: Option<T>, second: Option<T>) -> Option<T> {
    match first {
        Some(value) => Some(value),
        None => second,
    }
}

/// A sidecar with those of the texts that are given.
pub open spec fn with_metadata(
    sidecar: SidecarView,
    transcript: Option<Seq<char>>,
    ai_summary: Option<Seq<char>>,
) -> SidecarView {
    SidecarView {
        transcript: or_else(transcript, sidecar.transcript),
        ai_summary: or_else(ai_summary, sidecar.ai_summary),
        watched: sidecar.watched,
    }
}

/// A video with what its sidecar adds: texts that are there, and the watched mark.
pub open spec fn hydrated(video: VideoView, sidecar: Option<SidecarView>) -> VideoView {
    match sidecar {
        Some(sidecar) => VideoView {
            transcript: or_else(sidecar.transcript, video.transcript),
            ai_summary: or_else(sidecar.ai_summary, video.ai_summary),
            watched: sidecar.watched,
            ..video
        },
        None => video,
    }
}

pub open spec fn opt_sidecar(sidecar: Option<VideoMetadataSidecar>) -> Option<SidecarView> {
    match sidecar {
        Some(sidecar) => Some(sidecar@),
        None => None,
    }
}

impl Default for VideoMetadataSidecar {
    fn default() -> (r: Self)
        ensures
            r@ == empty_sidecar(),
    {
        VideoMetadataSidecar { transcript: None, ai_summary: None, watched: false }
    }
}

impl VideoMetadataSidecar {
    /// Whether there is nothing to keep; such a sidecar has no file.
    pub fn is_empty(&self) -> (r: bool)
        ensures
            r == (self@ == empty_sidecar()),
    {
        self.transcript.is_none() && self.ai_summary.is_none() && !self.watched
    }
}

/// Adds to a video what its sidecar holds.
pub fn apply_sidecar_metadata_to_video(video: &mut Video, sidecar: Option<VideoMetadataSidecar>)
    ensures
        final(video)@ == hydrated(old(video)@, opt_sidecar(sidecar)),
{
    if let Some(sidecar) = sidecar {
        if let Some(transcript) = sidecar.transcript {
            video.set_transcript(Some(transcript));
        }
        if let Some(ai_summary) = sidecar.ai_summary {
            video.set_ai_summary(Some(ai_summary));
        }
        video.set_watched(sidecar.watched);
    }
}

/// The sidecar to change.
fn take_sidecar(current: Saved<VideoMetadataSidecar>) -> (r: Result<
    VideoMetadataSidecar,
    StorageError,
>)
    ensures
        match sidecar_to_change(current) {
            Some(sidecar) => r matches Ok(taken) && taken@ == sidecar,
            None => reports_damage(r),
        },
{
    match current {
        Saved::Found(sidecar) => Ok(sidecar),
        Saved::Missing => Ok(VideoMetadataSidecar::default()),
        Saved::Damaged => Err(StorageError::Json("video sidecar cannot be read".to_owned())),
    }
}

/// The sidecar of a video once its transcript, its summary or both are saved. One that cannot
/// be read is an error, so that nothing it holds is written over.
pub fn save_video_metadata(
    current: Saved<VideoMetadataSidecar>,
    transcript: Option<&str>,
    ai_summary: Option<&str>,
) -> (r: Result<VideoMetadataSidecar, StorageError>)
    ensures
        match sidecar_to_change(current) {
            Some(sidecar) => r matches Ok(saved) && saved@ == with_metadata(
                sidecar,
                opt_str(transcript),
                opt_str(ai_summary),
            ),
            None => reports_damage(r),
        },
{
    match take_sidecar(current) {
        Ok(mut sidecar) => {
            if let Some(transcript) = transcript {
                sidecar.transcript = Some(transcript.to_owned());
            }
            if let Some(ai_summary) = ai_summary {
                sidecar.ai_summary = Some(ai_summary.to_owned());
            }
            Ok(sidecar)
        },
        Err(error) => Err(error),
    }
}

/// The sidecar of a video once its watched mark is saved. One that cannot be read is an error,
/// so that nothing it holds is written over.
pub fn save_video_watched(current: Saved<VideoMetadataSidecar>, watched: bool) -> (r: Result<
    VideoMetadataSidecar,
    StorageError,
>)
    ensures
        match sidecar_to_change(current) {
            Some(sidecar) => r matches Ok(saved) && saved@ == (SidecarView { watched, ..sidecar }),
            None => reports_damage(r),
        },
{
    match take_sidecar(current) {
        Ok(mut sidecar) => {
            sidecar.watched = watched;
            Ok(sidecar)
        },
        Err(error) => Err(error),
    }
}

/// What was saved in a sidecar is what a video gets from it: the texts, the later ones where
/// they were saved twice, and the watched mark, whichever was saved last.
pub proof fn sidecars_give_back_what_was_saved(
    video: VideoView,
    sidecar: SidecarView,
    transcript: Option<Seq<char>>,
    ai_summary: Option<Seq<char>>,
    watched: bool,
)
    ensures
        ({
            let texts_saved = with_metadata(sidecar, transcript, ai_summary);
            let both_saved = SidecarView { watched, ..texts_saved };
            let marked_first = with_metadata(
                SidecarView { watched, ..sidecar },
                transcript,
                ai_summary,
            );
            let loaded = hydrated(video, Some(both_saved));
            &&& both_saved == marked_first
            &&& transcript is Some ==> loaded.transcript == transcript
            &&& ai_summary is Some ==> loaded.ai_summary == ai_summary
            &&& transcript is None && sidecar.transcript is Some ==> loaded.transcript
                == sidecar.transcript
            &&& loaded.watched == watched
            &&& loaded.video_id == video.video_id
            &&& loaded.title == video.title
        }),
{
}

/// A sidecar without a file reads as no sidecar, and loses nothing: a video that is not
/// hydrated and one hydrated from the empty sidecar differ at most in the watched mark, which
/// the empty sidecar clears.
pub proof fn empty_sidecars_need_no_file(video: VideoView)
    requires
        !video.watched,
    ensures
        hydrated(video, Some(empty_sidecar())) == hydrated(video, None),
{
}

/// The videos with what their sidecars add.
pub open spec fn all_hydrated(
    videos: Seq<VideoView>,
    sidecars: Seq<Option<SidecarView>>,
) -> Seq<VideoView> {
    Seq::new(videos.len(), |i: int| hydrated(videos[i], sidecars[i]))
}

pub open spec fn sidecar_views(sidecars: Seq<Option<VideoMetadataSidecar>>) -> Seq<
    Option<SidecarView>,
> {
    sidecars.map_values(|sidecar: Option<VideoMetadataSidecar>| opt_sidecar(sidecar))
}

/// Adds to each video what the sidecar in its place holds.
pub fn hydrate_videos_from_sidecars(
    videos: Vec<Video>,
    sidecars: Vec<Option<VideoMetadataSidecar>>,
) -> (r: Vec<Video>)
    requires
        videos.len() == sidecars.len(),
    ensures
        video_views(r@) == all_hydrated(video_views(videos@), sidecar_views(sidecars@)),
{
    let ghost all = all_hydrated(video_views(videos@), sidecar_views(sidecars@));
    let ghost whole = (videos@, sidecars@);
    let mut videos = videos;
    let mut sidecars = sidecars;
    let mut reversed: Vec<Video> = Vec::new();
    let mut r: Vec<Video> = Vec::new();
    while videos.len() > 0
        invariant
            videos.len() == sidecars.len(),
            reversed.len() == whole.0.len() - videos.len(),
            whole.0.len() == whole.1.len(),
            all == all_hydrated(video_views(whole.0), sidecar_views(whole.1)),
            videos@ == whole.0.take(videos.len() as int),
            sidecars@ == whole.1.take(sidecars.len() as int),
            forall|k: int|
                0 <= k < reversed.len() ==> (#[trigger] reversed@[k])@ == all[all.len() - 1 - k],
        decreases videos.len(),
    {
        let ghost n = videos.len() - 1;
        let video_slot = videos.pop();
        let sidecar_slot = sidecars.pop();
        if let (Some(mut video), Some(sidecar)) = (video_slot, sidecar_slot) {
            let ghost view = video@;
            let ghost extra = opt_sidecar(sidecar);
            apply_sidecar_metadata_to_video(&mut video, sidecar);
            assert(view == video_views(whole.0)[n]);
            assert(extra == sidecar_views(whole.1)[n]);
            reversed.push(video);
        }
    }
    while reversed.len() > 0
        invariant
            r.len() + reversed.len() == all.len(),
            forall|k: int|
                0 <= k < reversed.len() ==> (#[trigger] reversed@[k])@ == all[all.len() - 1 - k],
            video_views(r@) == all.take(r.len() as int),
        decreases reversed.len(),
    {
        let ghost before = video_views(r@);
        let ghost n = r@.len() as int;
        if let Some(video) = reversed.pop() {
            r.push(video);
            assert(video_views(r@) =~= before.push(all[n]));
            assert(all.take(n + 1) =~= all.take(n).push(all[n]));
        }
    }
    assert(all.take(all.len() as int) =~= all);
    r
}

/// What the downloader's info file says of a video. The duration is in whole seconds.
#[derive(Debug)]
pub struct YtDlpInfoJson {
    pub id: Option<String>,
    pub title: Option<String>,
    pub channel_id: Option<String>,
    pub channel: Option<String>,
    pub uploader: Option<String>,
    pub upload_date: Option<String>,
    pub timestamp: Option<i64>,
    pub release_timestamp: Option<i64>,
    pub thumbnail: Option<String>,
    pub duration_seconds: Option<u32>,
}

/// The text that is there, or the other one.
pub open spec fn text_or(text: Option<String>, other: Seq<char>) -> Seq<char> {
    match text {
        Some(text) => text@,
        None => other,
    }
}

/// When the info file says that a video was published, given what its upload date is read
/// as: at the release time, else at the upload time, else at the start of the upload day.
pub open spec fn published_by_info(
    release_timestamp: Option<i64>,
    timestamp: Option<i64>,
    upload_day: Option<Timestamp>,
) -> Option<Timestamp> {
    match or_else(release_timestamp, timestamp) {
        Some(secs) => or_else(instant_of(secs), upload_day),
        None => upload_day,
    }
}

/// The upload day of an info file.
pub open spec fn upload_day(info: YtDlpInfoJson) -> Option<Timestamp> {
    match info.upload_date {
        Some(date) => parsed_midnight(date@, "%Y%m%d"@),
        None => None,
    }
}

/// The video that an info file describes, given its upload day: none where the file is of
/// another video or tells no time.
pub open spec fn video_by_info(
    info: YtDlpInfoJson,
    video_id: Seq<char>,
    upload_day: Option<Timestamp>,
) -> Option<VideoView> {
    let other = match info.id {
        Some(id) => id@ != video_id,
        None => false,
    };
    match published_by_info(info.release_timestamp, info.timestamp, upload_day) {
        Some(published) => if other {
            None
        } else {
            let title = text_or(info.title, "Untitled"@);
            Some(
                VideoView {
                    video_id,
                    channel_id: text_or(info.channel_id, Seq::empty()),
                    channel_name: text_or(
                        info.channel,
                        text_or(info.uploader, "Unknown channel"@),
                    ),
                    title: unescaped_or_raw(title, xml_unescaped(title)),
                    published,
                    thumbnail_url: text_or(info.thumbnail, urls::spec_thumbnail_url(video_id)),
                    duration_seconds: info.duration_seconds,
                    transcript: None,
                    ai_summary: None,
                    watched: false,
                },
            )
        },
        None => None,
    }
}

pub open spec fn opt_video(video: Option<Video>) -> Option<VideoView> {
    match video {
        Some(video) => Some(video@),
        None => None,
    }
}

/// When a video was published, by its timestamps and its upload day.
pub fn published_time(
    release_timestamp: Option<i64>,
    timestamp: Option<i64>,
    upload_day: Option<Timestamp>,
) -> (r: Option<Timestamp>)
    ensures
        r == published_by_info(release_timestamp, timestamp, upload_day),
{
    let secs = match release_timestamp {
        Some(secs) => Some(secs),
        None => timestamp,
    };
    let instant = match secs {
        Some(secs) => instant_at(secs),
        None => None,
    };
    match instant {
        Some(at) => Some(at),
        None => upload_day,
    }
}

/// The start of the day that an upload date names.
pub fn published_from_upload_date(upload_date: Option<&str>) -> (r: Option<Timestamp>)
    ensures
        r == match upload_date {
            Some(date) => parsed_midnight(date@, "%Y%m%d"@),
            None => None,
        },
{
    match upload_date {
        Some(date) => parse_midnight(date, "%Y%m%d"),
        None => None,
    }
}

fn string_or(text: Option<String>, other: &str) -> (r: String)
    ensures
        r@ == text_or(text, other@),
{
    match text {
        Some(text) => text,
        None => other.to_owned(),
    }
}

impl YtDlpInfoJson {
    /// The video that the file describes, given its upload day.
    pub fn into_video_published(self, video_id: &str, upload_day: Option<Timestamp>) -> (r: Option<
        Video,
    >)
        ensures
            opt_video(r) == video_by_info(self, video_id@, upload_day),
    {
        if let Some(id) = &self.id {
            if !same(id.as_str(), video_id) {
                return None;
            }
        }
        let published = match published_time(self.release_timestamp, self.timestamp, upload_day) {
            Some(published) => published,
            None => {
                return None;
            },
        };
        let thumbnail_url = match self.thumbnail {
            Some(url) => url,
            None => urls::thumbnail_url(video_id),
        };
        let uploader = string_or(self.uploader, "Unknown channel");
        Some(
            Video::new(
                NewVideo {
                    video_id: video_id.to_owned(),
                    channel_id: match self.channel_id {
                        Some(id) => id,
                        None => String::new(),
                    },
                    channel_name: string_or(self.channel, uploader.as_str()),
                    title: string_or(self.title, "Untitled"),
                    published,
                    thumbnail_url,
                    duration_seconds: self.duration_seconds,
                },
            ),
        )
    }

    /// The video that the file describes.
    pub fn into_video(self, video_id: &str) -> (r: Option<Video>)
        ensures
            opt_video(r) == video_by_info(self, video_id@, upload_day(self)),
    {
        let day = match &self.upload_date {
            Some(date) => published_from_upload_date(Some(date.as_str())),
            None => published_from_upload_date(None),
        };
        self.into_video_published(video_id, day)
    }
}

/// A file among the downloads, with what it says where it is an info file that was read.
#[derive(Debug)]
pub struct InfoEntry {
    pub name: String,
    pub info: Option<YtDlpInfoJson>,
}

/// The watch-later video that the list of videos lacks and that a file is the info file of.
pub open spec fn missing_video_id(
    name: Seq<char>,
    watch_later: Set<Seq<char>>,
    known: Set<Seq<char>>,
) -> Option<Seq<char>> {
    match info_json_video_id(name) {
        Some(id) => if !known.contains(id) && watch_later.contains(id) {
            Some(id)
        } else {
            None
        },
        None => None,
    }
}

/// The video that is rebuilt from a file.
pub open spec fn rebuilt_video(
    entry: InfoEntry,
    watch_later: Set<Seq<char>>,
    known: Set<Seq<char>>,
) -> Option<VideoView> {
    match (missing_video_id(entry.name@, watch_later, known), entry.info) {
        (Some(id), Some(info)) => video_by_info(info, id, upload_day(info)),
        _ => None,
    }
}

/// The videos that are rebuilt from files, in the files' order.
pub open spec fn rebuilt_videos(
    entries: Seq<InfoEntry>,
    watch_later: Set<Seq<char>>,
    known: Set<Seq<char>>,
) -> Seq<VideoView>
    decreases entries.len(),
{
    if entries.len() == 0 {
        Seq::empty()
    } else {
        let rebuilt = rebuilt_videos(entries.drop_last(), watch_later, known);
        match rebuilt_video(entries.last(), watch_later, known) {
            Some(video) => rebuilt.push(video),
            None => rebuilt,
        }
    }
}

/// Whether a file among the downloads is worth reading to rebuild a watch-later video that the
/// list of videos lacks; if so, which video that is.
pub fn missing_watch_later_video<'a>(
    name: &'a str,
    watch_later: &IdSet,
    known_video_ids: &IdSet,
) -> (r: Option<&'a str>)
    ensures
        opt_str(r) == missing_video_id(name@, watch_later@, known_video_ids@),
{
    match video_id_from_info_json_path(name) {
        Some(id) => if !known_video_ids.contains(id) && watch_later.contains(id) {
            Some(id)
        } else {
            None
        },
        None => None,
    }
}

/// Rebuilds watch-later videos that the list of videos lacks from their info files, newest
/// first.
pub fn load_missing_watch_later_videos_from_info_json(
    entries: Vec<InfoEntry>,
    watch_later: &IdSet,
    known_video_ids: &IdSet,
) -> (videos: Vec<Video>)
    ensures
        video_views(videos@) == newest_first(
            rebuilt_videos(entries@, watch_later@, known_video_ids@),
        ),
{
    let ghost all = entries@;
    let mut entries = entries;
    let mut rebuilt: Vec<Video> = Vec::new();
    let ghost mut done: int = 0;
    assert(all.take(0) =~= Seq::<InfoEntry>::empty());
    while entries.len() > 0
        invariant
            0 <= done <= all.len(),
            entries@ == all.skip(done),
            video_views(rebuilt@) == rebuilt_videos(
                all.take(done),
                watch_later@,
                known_video_ids@,
            ),
        decreases entries.len(),
    {
        let ghost before = video_views(rebuilt@);
        let entry = entries.remove(0);
        proof {
            assert(entry == all[done]);
            assert(all.take(done + 1).drop_last() =~= all.take(done));
            assert(entries@ =~= all.skip(done + 1));
        }
        let name = entry.name;
        if let (Some(id), Some(info)) = (
            missing_watch_later_video(name.as_str(), watch_later, known_video_ids),
            entry.info,
        ) {
            if let Some(video) = info.into_video(id) {
                rebuilt.push(video);
                assert(video_views(rebuilt@) =~= before.push(video@));
            }
        }
        proof {
            done = done + 1;
        }
    }
    assert(all.take(done) =~= all);
    sort_newest_first(&rebuilt)
}

/// Whatever is rebuilt is on the watch-later list and was not known.
pub proof fn rebuilt_videos_were_missing(
    entries: Seq<InfoEntry>,
    watch_later: Set<Seq<char>>,
    known: Set<Seq<char>>,
)
    ensures
        forall|i: int|
            0 <= i < rebuilt_videos(entries, watch_later, known).len() ==> {
                let id = (#[trigger] rebuilt_videos(entries, watch_later, known)[i]).video_id;
                watch_later.contains(id) && !known.contains(id)
            },
    decreases entries.len(),
{
    if entries.len() > 0 {
        rebuilt_videos_were_missing(entries.drop_last(), watch_later, known);
    }
}

/// A video identifier is eleven characters long, each of them a digit, a letter, a hyphen or an
/// underscore.
pub proof fn identifiers_have_eleven_characters(s: Seq<char>, c: char)
    ensures
        is_id_char(c) <==> 48 <= c as int <= 57 || 65 <= c as int <= 90 || 97 <= c as int <= 122
            || c as int == 45 || c as int == 95,
        is_video_id(s) ==> s.len() == 11,
        s.len() == 11 && (forall|i: int| 0 <= i < 11 ==> is_id_char(#[trigger] s[i]))
            ==> is_video_id(s),
        is_video_id(s) && s.contains(c) ==> is_id_char(c),
{
}

/// Characters that a file name cannot hold become underscores; these are the separators of
/// paths, the wildcards, quotes and redirections, and the control characters.
pub proof fn unsafe_characters_become_underscores(c: char)
    ensures
        is_unsafe(c) <==> "/\\:*?\"<>|"@.contains(c) || 0 <= c as int <= 31 || 127 <= c as int
            <= 159,
        is_unsafe(c) ==> safe_char(c) == '_',
        !is_unsafe(c) ==> safe_char(c) == c,
{
    reveal_strlit("/\\:*?\"<>|");
    let s = "/\\:*?\"<>|"@;
    assert(s[0] == '/' && s[1] == '\\' && s[2] == ':' && s[3] == '*' && s[4] == '?' && s[5] == '"'
        && s[6] == '<' && s[7] == '>' && s[8] == '|');
}

/// A title of at most a hundred characters without whitespace at its ends keeps its length and
/// every safe character at its place; of a longer one the first hundred characters count.
pub proof fn titles_keep_their_safe_characters(title: Seq<char>, i: int)
    requires
        title.len() > 0,
        !is_whitespace(title[0]),
        !is_whitespace(title.last()),
        0 <= i < sanitized(title).len(),
    ensures
        sanitized(title)[i] == if is_unsafe(title[i]) {
            '_'
        } else {
            title[i]
        },
        title.len() <= 100 ==> sanitized(title).len() == title.len(),
        title.len() > 100 && !is_whitespace(title[99]) ==> sanitized(title).len() == 100,
{
    lemma_trimmed_identity(title);
    let safe = title.map_values(|c: char| safe_char(c));
    let cut = shortened(safe, MAX_TITLE_LENGTH as nat);
    lemma_skip_trailing(cut, CharSet::Whitespace);
    assert(sanitized(title)[i] == safe[i]);
    if title.len() <= 100 {
        assert(cut.last() == safe_char(title.last()));
        assert(skip_trailing(cut, CharSet::Whitespace) == cut);
    } else if !is_whitespace(title[99]) {
        assert(cut.last() == safe_char(title[99]));
        assert(skip_trailing(cut, CharSet::Whitespace) == cut);
    }
}

proof fn lemma_stem_ends_with_id(start: Seq<char>, video_id: Seq<char>)
    requires
        is_video_id(video_id),
    ensures
        id_from_stem(video_id) == Some(video_id),
        id_from_stem(start + seq!['_'] + video_id) == Some(video_id),
{
    let stem = start + seq!['_'] + video_id;
    assert(video_id.skip(0) =~= video_id);
    assert(stem.skip(stem.len() - 11) =~= video_id);
    assert(stem[stem.len() - 11 - 1] == '_');
}

/// The files that belong to a download are found by the identifier that their names end with,
/// whatever precedes it: the video in each of its containers, the subtitles in each language,
/// and the info file.
pub proof fn files_of_a_download_tell_their_video(
    start: Seq<char>,
    video_id: Seq<char>,
    language: Seq<char>,
)
    requires
        is_video_id(video_id),
    ensures
        cached_video_id(start + seq!['_'] + video_id + ".mkv"@) == Some(video_id),
        cached_video_id(start + seq!['_'] + video_id + ".mp4"@) == Some(video_id),
        cached_video_id(start + seq!['_'] + video_id + ".webm"@) == Some(video_id),
        cached_video_id(video_id + ".mkv"@) == Some(video_id),
        info_json_video_id(start + seq!['_'] + video_id + ".info.json"@) == Some(video_id),
        !start.contains('.') ==> subtitle_video_id(
            start + seq!['_'] + video_id + seq!['.'] + language + ".vtt"@,
        ) == Some(video_id),
        !start.contains('.') ==> subtitle_video_id(start + seq!['_'] + video_id + ".vtt"@) == Some(
            video_id,
        ),
{
    reveal_strlit(".mkv");
    reveal_strlit("mkv");
    reveal_strlit(".mp4");
    reveal_strlit("mp4");
    reveal_strlit(".webm");
    reveal_strlit("webm");
    reveal_strlit(".vtt");
    reveal_strlit("vtt");
    reveal_strlit("json");
    reveal_strlit(".info.json");
    let stem = start + seq!['_'] + video_id;
    lemma_stem_ends_with_id(start, video_id);
    lemma_name_with_extension(stem, "mkv"@);
    lemma_name_with_extension(stem, "mp4"@);
    lemma_name_with_extension(stem, "webm"@);
    lemma_name_with_extension(video_id, "mkv"@);
    assert(stem + seq!['.'] + "mkv"@ =~= stem + ".mkv"@);
    assert(stem + seq!['.'] + "mp4"@ =~= stem + ".mp4"@);
    assert(stem + seq!['.'] + "webm"@ =~= stem + ".webm"@);
    assert(video_id + seq!['.'] + "mkv"@ =~= video_id + ".mkv"@);
    let info = stem + ".info.json"@;
    let info_stem = stem + ".info.json"@.take(5);
    lemma_name_with_extension(info_stem, "json"@);
    assert(info_stem + seq!['.'] + "json"@ =~= info);
    assert(info.subrange(info.len() - 10, info.len() as int) =~= ".info.json"@);
    assert(info.take(info.len() - 10) =~= stem);
    if !start.contains('.') {
        assert forall|k: int| 0 <= k < stem.len() implies stem[k] != '.' by {
            if k < start.len() {
                assert(stem[k] == start[k]);
                assert(start.contains(start[k]));
            } else if k > start.len() {
                assert(stem[k] == video_id[k - start.len() - 1]);
                assert(is_id_char(video_id[k - start.len() - 1]));
            }
        }
        let named = stem + seq!['.'] + language;
        lemma_name_with_extension(named, "vtt"@);
        assert(named + seq!['.'] + "vtt"@ =~= named + ".vtt"@);
        pieces_part_at_separators(stem, language, '.');
        assert((split_at(stem, '.') + split_at(language, '.'))[0] == stem);
        lemma_name_with_extension(stem, "vtt"@);
        assert(stem + seq!['.'] + "vtt"@ =~= stem + ".vtt"@);
    }
}

/// A file of another kind is no download, and a download's file is named by an identifier that
/// stands alone or behind an underscore.
pub proof fn other_files_are_no_downloads(
    name: Seq<char>,
    stem: Seq<char>,
    extension: Seq<char>,
)
    requires
        stem.len() > 0,
        extension.len() > 0,
        !extension.contains('.'),
    ensures
        extension != "mkv"@ && extension != "mp4"@ && extension != "webm"@ ==> cached_video_id(
            stem + seq!['.'] + extension,
        ) is None,
        extension != "vtt"@ ==> subtitle_video_id(stem + seq!['.'] + extension) is None,
        extension != "json"@ ==> info_json_video_id(stem + seq!['.'] + extension) is None
            && sidecar_video_id(stem + seq!['.'] + extension) is None,
        extension != "jpg"@ ==> thumbnail_video_id(stem + seq!['.'] + extension) is None,
        !is_video_id(stem) ==> thumbnail_video_id(stem + seq!['.'] + extension) is None
            && sidecar_video_id(stem + seq!['.'] + extension) is None,
        id_from_stem(stem) matches Some(id) ==> is_video_id(id) && stem.len() >= 11 && stem.skip(
            stem.len() - 11,
        ) == id && (stem.len() > 11 ==> stem[stem.len() - 12] == '_'),
        cached_video_id(name) matches Some(id) ==> is_video_id(id),
        subtitle_video_id(name) matches Some(id) ==> is_video_id(id),
        info_json_video_id(name) matches Some(id) ==> is_video_id(id),
        thumbnail_video_id(name) matches Some(id) ==> is_video_id(id),
        sidecar_video_id(name) matches Some(id) ==> is_video_id(id),
{
    lemma_name_with_extension(stem, extension);
}

/// Cleaning up keeps every file of a download, the video in each container, its subtitles and
/// its info file, exactly if the video is on the watch-later list.
pub proof fn cleanup_keeps_all_files_of_watch_later_videos(
    start: Seq<char>,
    video_id: Seq<char>,
    language: Seq<char>,
    watch_later: Set<Seq<char>>,
    feed: Set<Seq<char>>,
)
    requires
        is_video_id(video_id),
        !start.contains('.'),
    ensures
        ({
            let kept = |name: Seq<char>| keeps_entry(
                CacheArea::Videos,
                CacheEntryView { name: Some(name), is_file: true, is_dir: false },
                watch_later,
                feed,
            );
            let stem = start + seq!['_'] + video_id;
            &&& kept(stem + ".mkv"@) == watch_later.contains(video_id)
            &&& kept(stem + ".mp4"@) == watch_later.contains(video_id)
            &&& kept(stem + ".webm"@) == watch_later.contains(video_id)
            &&& kept(stem + seq!['.'] + language + ".vtt"@) == watch_later.contains(video_id)
            &&& kept(stem + ".info.json"@) == watch_later.contains(video_id)
        }),
{
    files_of_a_download_tell_their_video(start, video_id, language);
    reveal_strlit(".vtt");
    reveal_strlit("vtt");
    reveal_strlit("mkv");
    reveal_strlit("mp4");
    reveal_strlit("webm");
    reveal_strlit("json");
    reveal_strlit(".info.json");
    let stem = start + seq!['_'] + video_id;
    let named = stem + seq!['.'] + language;
    assert(named + seq!['.'] + "vtt"@ =~= named + ".vtt"@);
    assert("vtt"@[0] == 'v' && "mkv"@[0] == 'm' && "mp4"@[0] == 'm' && "webm"@[0] == 'w'
        && "json"@[0] == 'j');
    other_files_are_no_downloads(named, named, "vtt"@);
    let info_stem = stem + ".info.json"@.take(5);
    assert(info_stem + seq!['.'] + "json"@ =~= stem + ".info.json"@);
    other_files_are_no_downloads(info_stem, info_stem, "json"@);
}

/// Where the parts of the cache lie.
pub proof fn the_cache_has_four_directories(roots: Roots)
    requires
        roots.cache.len() > 0,
        roots.cache.last() != '/',
    ensures
        area_path(roots, CacheArea::Root) == roots.cache,
        area_path(roots, CacheArea::Thumbnails) == roots.cache + "/thumbnails"@,
        area_path(roots, CacheArea::Sidecars) == roots.cache + "/video_sidecars"@,
        area_path(roots, CacheArea::Videos) == roots.cache + "/videos"@,
        area_path(roots, CacheArea::TranscriptsWork) == roots.cache + "/transcripts_work"@,
{
    reveal_strlit("/");
    reveal_strlit("thumbnails");
    reveal_strlit("/thumbnails");
    reveal_strlit("video_sidecars");
    reveal_strlit("/video_sidecars");
    reveal_strlit("videos");
    reveal_strlit("/videos");
    reveal_strlit("transcripts_work");
    reveal_strlit("/transcripts_work");
    assert(area_path(roots, CacheArea::Thumbnails) =~= roots.cache + "/thumbnails"@);
    assert(area_path(roots, CacheArea::Sidecars) =~= roots.cache + "/video_sidecars"@);
    assert(area_path(roots, CacheArea::Videos) =~= roots.cache + "/videos"@);
    assert(area_path(roots, CacheArea::TranscriptsWork) =~= roots.cache + "/transcripts_work"@);
}

/// Files are named by their video: a download by its title and the identifier, a thumbnail and
/// a sidecar by the identifier alone.
pub proof fn files_are_named_by_their_video(video_id: Seq<char>, title: Seq<char>)
    ensures
        video_file_name(video_id, title) == sanitized(title) + seq!['_'] + video_id + ".mkv"@,
        thumbnail_file_name(video_id) == video_id + ".jpg"@,
        sidecar_file_name(video_id) == video_id + ".json"@,
{
    reveal_strlit("_");
    assert("_"@ =~= seq!['_']);
}

/// Which files go is decided file by file: for one video its downloads, in each container; for
/// the watch-later list the downloads of the videos outside of it; and of the legacy downloads
/// of a video those that are no MKV files.
pub proof fn files_are_picked_one_by_one(
    dir: Seq<char>,
    a: Seq<Seq<char>>,
    b: Seq<Seq<char>>,
    name: Seq<char>,
    video_id: Seq<char>,
    watch_later: Set<Seq<char>>,
)
    ensures
        paths_of_video(dir, a + b, video_id) == paths_of_video(dir, a, video_id) + paths_of_video(
            dir,
            b,
            video_id,
        ),
        legacy_paths(dir, a + b, video_id) == legacy_paths(dir, a, video_id) + legacy_paths(
            dir,
            b,
            video_id,
        ),
        paths_outside(dir, a + b, watch_later) == paths_outside(dir, a, watch_later)
            + paths_outside(dir, b, watch_later),
        paths_of_video(dir, seq![name], video_id) == if cached_video_id(name) == Some(video_id) {
            seq![joined_path(dir, name)]
        } else {
            Seq::empty()
        },
        legacy_paths(dir, seq![name], video_id) == if cached_video_id(name) == Some(video_id)
            && extension_of(name) != Some("mkv"@) {
            seq![joined_path(dir, name)]
        } else {
            Seq::empty()
        },
        cached_video_id(name) is None ==> paths_outside(dir, seq![name], watch_later).len() == 0,
        cached_video_id(name) matches Some(id) ==> paths_outside(dir, seq![name], watch_later)
            == if watch_later.contains(id) {
            Seq::empty()
        } else {
            seq![joined_path(dir, name)]
        },
    decreases b.len(),
{
    let none = Seq::<Seq<char>>::empty();
    let one = seq![name];
    assert(one.drop_last() =~= none);
    assert(paths_of_video(dir, none, video_id) =~= none);
    assert(legacy_paths(dir, none, video_id) =~= none);
    assert(paths_outside(dir, none, watch_later) =~= none);
    let path = joined_path(dir, name);
    assert(none.push(path) =~= seq![path]);
    if b.len() == 0 {
        assert(a + b =~= a);
        assert(paths_of_video(dir, a, video_id) + none =~= paths_of_video(dir, a, video_id));
        assert(legacy_paths(dir, a, video_id) + none =~= legacy_paths(dir, a, video_id));
        assert(paths_outside(dir, a, watch_later) + none =~= paths_outside(dir, a, watch_later));
        assert(b =~= none);
    } else {
        files_are_picked_one_by_one(dir, a, b.drop_last(), name, video_id, watch_later);
        assert((a + b).drop_last() =~= a + b.drop_last());
        assert((a + b).last() == b.last());
        assert(paths_of_video(dir, a + b, video_id) =~= paths_of_video(dir, a, video_id)
            + paths_of_video(dir, b, video_id));
        assert(legacy_paths(dir, a + b, video_id) =~= legacy_paths(dir, a, video_id)
            + legacy_paths(dir, b, video_id));
        assert(paths_outside(dir, a + b, watch_later) =~= paths_outside(dir, a, watch_later)
            + paths_outside(dir, b, watch_later));
    }
}

/// Each video gets what the sidecar in its own place holds, and nothing else of it changes; a
/// text that the sidecar lacks stays as the video has it.
pub proof fn videos_get_what_their_own_sidecars_hold(
    videos: Seq<VideoView>,
    sidecars: Seq<Option<SidecarView>>,
    i: int,
)
    requires
        videos.len() == sidecars.len(),
        0 <= i < videos.len(),
    ensures
        all_hydrated(videos, sidecars).len() == videos.len(),
        ({
            let video = videos[i];
            let loaded = all_hydrated(videos, sidecars)[i];
            &&& loaded.video_id == video.video_id
            &&& loaded.channel_id == video.channel_id
            &&& loaded.channel_name == video.channel_name
            &&& loaded.title == video.title
            &&& loaded.published == video.published
            &&& loaded.thumbnail_url == video.thumbnail_url
            &&& loaded.duration_seconds == video.duration_seconds
            &&& sidecars[i] is None ==> loaded == video
            &&& sidecars[i] matches Some(sidecar) ==> {
                &&& loaded.watched == sidecar.watched
                &&& sidecar.transcript is Some ==> loaded.transcript == sidecar.transcript
                &&& sidecar.transcript is None ==> loaded.transcript == video.transcript
                &&& sidecar.ai_summary is Some ==> loaded.ai_summary == sidecar.ai_summary
                &&& sidecar.ai_summary is None ==> loaded.ai_summary == video.ai_summary
            }
        }),
{
}

/// Saving a text in a sidecar changes that text alone.
pub proof fn saving_one_text_keeps_the_rest(sidecar: SidecarView, text: Seq<char>)
    ensures
        ({
            let saved = with_metadata(sidecar, Some(text), None);
            &&& saved.transcript == Some(text)
            &&& saved.ai_summary == sidecar.ai_summary
            &&& saved.watched == sidecar.watched
        }),
        ({
            let saved = with_metadata(sidecar, None, Some(text));
            &&& saved.ai_summary == Some(text)
            &&& saved.transcript == sidecar.transcript
            &&& saved.watched == sidecar.watched
        }),
        with_metadata(sidecar, None, None) == sidecar,
        empty_sidecar().transcript is None && empty_sidecar().ai_summary is None
            && !empty_sidecar().watched,
{
}

/// What an info file says of its video: it is published when it was released, or else
/// uploaded, to the second where that has a date and otherwise on the upload day; an info file
/// of another video, or one that tells no time, makes none.
pub proof fn info_files_make_the_videos_they_describe(
    info: YtDlpInfoJson,
    video_id: Seq<char>,
    day: Option<Timestamp>,
    secs: i64,
)
    ensures
        info.id matches Some(id) ==> id@ != video_id ==> video_by_info(info, video_id, day) is None,
        info.release_timestamp == Some(secs) && instant_of(secs) is Some ==> published_by_info(
            info.release_timestamp,
            info.timestamp,
            day,
        ) == instant_of(secs),
        info.release_timestamp is None && info.timestamp == Some(secs) && instant_of(secs) is Some
            ==> published_by_info(info.release_timestamp, info.timestamp, day) == instant_of(secs),
        info.release_timestamp is None && info.timestamp is None ==> published_by_info(
            info.release_timestamp,
            info.timestamp,
            day,
        ) == day,
        info.release_timestamp == Some(secs) && instant_of(secs) is None ==> published_by_info(
            info.release_timestamp,
            info.timestamp,
            day,
        ) == day,
        instant_of(secs) matches Some(at) ==> at.secs == secs && at.nanos == 0,
        match video_by_info(info, video_id, day) {
            Some(video) => {
                &&& info.id matches Some(id) ==> id@ == video_id
                &&& published_by_info(info.release_timestamp, info.timestamp, day) == Some(
                    video.published,
                )
                &&& video.video_id == video_id
                &&& info.title matches Some(title) ==> video.title == (match xml_unescaped(
                    title@,
                ) {
                    Some(text) => text,
                    None => title@,
                })
                &&& info.channel_id matches Some(channel) ==> video.channel_id == channel@
                &&& info.channel_id is None ==> video.channel_id.len() == 0
                &&& info.channel matches Some(name) ==> video.channel_name == name@
                &&& info.channel is None ==> (info.uploader matches Some(name)
                    ==> video.channel_name == name@)
                &&& info.channel is None && info.uploader is None ==> video.channel_name
                    == "Unknown channel"@
                &&& info.thumbnail matches Some(url) ==> video.thumbnail_url == url@
                &&& info.thumbnail is None ==> video.thumbnail_url == "https://i.ytimg.com/vi/"@
                    + video_id + "/hqdefault.jpg"@
                &&& video.duration_seconds == info.duration_seconds
                &&& video.transcript is None && video.ai_summary is None && !video.watched
            },
            None => (info.id matches Some(id) && id@ != video_id) || published_by_info(
                info.release_timestamp,
                info.timestamp,
                day,
            ) is None,
        },
{
}

/// The videos that are rebuilt come file by file: an info file that was read, of a watch-later
/// video that is not known, makes the video it describes.
pub proof fn videos_are_rebuilt_file_by_file(
    a: Seq<InfoEntry>,
    b: Seq<InfoEntry>,
    entry: InfoEntry,
    watch_later: Set<Seq<char>>,
    known: Set<Seq<char>>,
)
    ensures
        rebuilt_videos(a + b, watch_later, known) == rebuilt_videos(a, watch_later, known)
            + rebuilt_videos(b, watch_later, known),
        entry.info is None || info_json_video_id(entry.name@) is None ==> rebuilt_videos(
            seq![entry],
            watch_later,
            known,
        ).len() == 0,
        info_json_video_id(entry.name@) matches Some(id) ==> (!watch_later.contains(id)
            || known.contains(id)) ==> rebuilt_videos(seq![entry], watch_later, known).len() == 0,
        info_json_video_id(entry.name@) matches Some(id) ==> entry.info matches Some(info)
            ==> watch_later.contains(id) && !known.contains(id) ==> rebuilt_videos(
            seq![entry],
            watch_later,
            known,
        ) == (match video_by_info(info, id, upload_day(info)) {
            Some(video) => seq![video],
            None => Seq::empty(),
        }),
    decreases b.len(),
{
    let none = Seq::<InfoEntry>::empty();
    assert(seq![entry].drop_last() =~= none);
    assert(rebuilt_videos(none, watch_later, known) =~= Seq::empty());
    if b.len() == 0 {
        assert(a + b =~= a);
        assert(rebuilt_videos(a, watch_later, known) + rebuilt_videos(b, watch_later, known)
            =~= rebuilt_videos(a, watch_later, known));
    } else {
        videos_are_rebuilt_file_by_file(a, b.drop_last(), entry, watch_later, known);
        assert((a + b).drop_last() =~= a + b.drop_last());
        assert((a + b).last() == b.last());
        assert(rebuilt_videos(a + b, watch_later, known) =~= rebuilt_videos(a, watch_later, known)
            + rebuilt_videos(b, watch_later, known));
    }
}

/// A video is downloaded where one of the files is a download of it, and its downloads are
/// legacy ones where none of them is an MKV file.
pub proof fn downloads_are_told_by_the_files(names: Seq<Seq<char>>, i: int, video_id: Seq<char>)
    requires
        0 <= i < names.len(),
    ensures
        cached_video_id(names[i]) == Some(video_id) ==> downloaded_ids(names).contains(video_id),
        cached_video_id(names[i]) == Some(video_id) && extension_of(names[i]) == Some("mkv"@)
            ==> !legacy_ids(names).contains(video_id),
        legacy_ids(names).contains(video_id) ==> downloaded_ids(names).contains(video_id),
        (forall|k: int|
            0 <= k < names.len() ==> cached_video_id(#[trigger] names[k]) != Some(video_id))
            ==> !downloaded_ids(names).contains(video_id),
        downloaded_ids(names).contains(video_id) && (forall|k: int|
            0 <= k < names.len() && cached_video_id(#[trigger] names[k]) == Some(video_id)
                ==> extension_of(names[k]) != Some("mkv"@)) ==> legacy_ids(names).contains(
            video_id,
        ),
{
}

/// What is to be saved changes the sidecar that is there, or an empty one; one that cannot be
/// read is neither changed nor replaced.
pub proof fn damaged_sidecars_stay(sidecar: VideoMetadataSidecar)
    ensures
        sidecar_to_change(Saved::Found(sidecar)) == Some(sidecar@),
        sidecar_to_change(Saved::Missing) == Some(empty_sidecar()),
        sidecar_to_change(Saved::Damaged) is None,
        !reports_damage(Ok(sidecar)),
{
}

/// An info file's day is written as year, month and day without anything between them.
pub proof fn upload_days_are_read_by_their_format(info: YtDlpInfoJson)
    ensures
        match info.upload_date {
            Some(date) => upload_day(info) == parsed_midnight(date@, "%Y%m%d"@),
            None => upload_day(info) is None,
        },
{
}

} // verus!
