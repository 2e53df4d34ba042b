//! The file of channels.

use crate::cache::storage::opt_str;
use crate::feed::fetcher::{channel_of_line, channels_in, present};
use crate::paths::{join_path, joined_path};
use crate::text::{
    ends_with, is_whitespace, join, joined, lemma_lines_have_no_feed, lemma_split_joined,
    lemma_split_nonempty, lines, lines_of, same, skip_leading, split_at, texts, trim, trimmed,
    without_cr, CharSet,
};
use vstd::prelude::*;

verus! {

/// Lines without those that name a channel.
pub open spec fn lines_without(lines: Seq<Seq<char>>, channel_id: Seq<char>) -> Seq<Seq<char>>
    decreases lines.len(),
{
    if lines.len() == 0 {
        Seq::empty()
    } else {
        let kept = lines_without(lines.drop_last(), channel_id);
        if channel_of_line(lines.last()) == Some(channel_id) {
            kept
        } else {
            kept.push(lines.last())
        }
    }
}

/// The content of a file without a channel. Comments and blank lines stay, and so does a line
/// feed at the end.
pub open spec fn without_channel(content: Seq<char>, channel_id: Seq<char>) -> Seq<char> {
    joined(lines_without(lines_of(content), channel_id), "\n"@) + if content.len() > 0
        && content.last() == '\n' {
        "\n"@
    } else {
        Seq::empty()
    }
}

/// Channels without one.
pub open spec fn other_channels(channels: Seq<Seq<char>>, channel_id: Seq<char>) -> Seq<Seq<char>>
    decreases channels.len(),
{
    if channels.len() == 0 {
        Seq::empty()
    } else {
        let others = other_channels(channels.drop_last(), channel_id);
        if channels.last() == channel_id {
            others
        } else {
            others.push(channels.last())
        }
    }
}

/// The channels that lines name.
pub open spec fn channels_of(lines: Seq<Seq<char>>) -> Seq<Seq<char>> {
    present(lines.map_values(|line: Seq<char>| channel_of_line(line)))
}

proof fn lemma_channels_push(lines: Seq<Seq<char>>, line: Seq<char>)
    ensures
        channels_of(lines.push(line)) == match channel_of_line(line) {
            Some(channel) => channels_of(lines).push(channel),
            None => channels_of(lines),
        },
{
    let all = lines.push(line).map_values(|line: Seq<char>| channel_of_line(line));
    assert(all.drop_last() =~= lines.map_values(|line: Seq<char>| channel_of_line(line)));
    assert(all.last() == channel_of_line(line));
}

proof fn lemma_other_lines(lines: Seq<Seq<char>>, channel_id: Seq<char>)
    ensures
        channels_of(lines_without(lines, channel_id)) == other_channels(
            channels_of(lines),
            channel_id,
        ),
    decreases lines.len(),
{
    if lines.len() == 0 {
        assert(channels_of(lines) =~= Seq::<Seq<char>>::empty());
        assert(lines_without(lines, channel_id) =~= lines);
    } else {
        let rest = lines.drop_last();
        let last = lines.last();
        lemma_other_lines(rest, channel_id);
        lemma_channels_push(rest, last);
        assert(rest.push(last) =~= lines);
        lemma_channels_push(lines_without(rest, channel_id), last);
        if let Some(channel) = channel_of_line(last) {
            assert(channels_of(rest).push(channel).drop_last() =~= channels_of(rest));
        }
    }
}

proof fn lemma_leading_push(s: Seq<char>, c: char, set: CharSet)
    ensures
        skip_leading(s.push(c), set) == if skip_leading(s, set).len() == 0 && set.has(c) {
            Seq::<char>::empty()
        } else {
            skip_leading(s, set).push(c)
        },
    decreases s.len(),
{
    let whole = s.push(c);
    if s.len() == 0 {
        assert(whole[0] == c);
        assert(whole.drop_first() =~= Seq::<char>::empty());
        assert(skip_leading(Seq::<char>::empty(), set) =~= Seq::<char>::empty());
        assert(skip_leading(s, set).push(c) =~= whole);
    } else {
        assert(whole[0] == s[0]);
        assert(whole.drop_first() =~= s.drop_first().push(c));
        lemma_leading_push(s.drop_first(), c, set);
    }
}

proof fn lemma_trimmed_push(s: Seq<char>, c: char)
    requires
        is_whitespace(c),
    ensures
        trimmed(s.push(c)) == trimmed(s),
{
    let set = CharSet::Whitespace;
    lemma_leading_push(s, c, set);
    let front = skip_leading(s, set);
    if front.len() == 0 {
        assert(front =~= Seq::<char>::empty());
    } else {
        assert(front.push(c).drop_last() =~= front);
    }
}

proof fn lemma_without_cr(line: Seq<char>)
    ensures
        channel_of_line(without_cr(line)) == channel_of_line(line),
{
    if line.len() > 0 && line.last() == '\r' {
        assert(line.drop_last().push('\r') =~= line);
        lemma_trimmed_push(line.drop_last(), '\r');
    }
}

proof fn lemma_channels_by_pieces(content: Seq<char>)
    ensures
        channels_in(content) == channels_of(split_at(content, '\n')),
{
    let pieces = split_at(content, '\n');
    lemma_split_nonempty(content, '\n');
    let front = pieces.drop_last();
    let ended = front.map_values(|piece: Seq<char>| without_cr(piece));
    let a = ended.map_values(|line: Seq<char>| channel_of_line(line));
    let b = front.map_values(|line: Seq<char>| channel_of_line(line));
    assert forall|i: int| 0 <= i < a.len() implies a[i] == b[i] by {
        lemma_without_cr(front[i]);
    }
    assert(a =~= b);
    assert(front.push(pieces.last()) =~= pieces);
    lemma_channels_push(front, pieces.last());
    if pieces.last().len() == 0 {
        assert(pieces.last() =~= Seq::<char>::empty());
        assert(trimmed(pieces.last()).len() == 0);
    } else {
        lemma_channels_push(ended, pieces.last());
    }
}

proof fn lemma_kept_lines(lines: Seq<Seq<char>>, channel_id: Seq<char>)
    requires
        forall|i: int| 0 <= i < lines.len() ==> !(#[trigger] lines[i]).contains('\n'),
    ensures
        forall|i: int|
            0 <= i < lines_without(lines, channel_id).len() ==> !(#[trigger] lines_without(
                lines,
                channel_id,
            )[i]).contains('\n'),
    decreases lines.len(),
{
    if lines.len() > 0 {
        let rest = lines.drop_last();
        assert forall|i: int| 0 <= i < rest.len() implies !(#[trigger] rest[i]).contains('\n') by {
            assert(rest[i] == lines[i]);
        }
        lemma_kept_lines(rest, channel_id);
        let kept = lines_without(rest, channel_id);
        let after = lines_without(lines, channel_id);
        assert forall|i: int| 0 <= i < after.len() implies !(#[trigger] after[i]).contains('\n') by {
            if i < kept.len() {
                assert(after[i] == kept[i]);
            } else {
                assert(after[i] == lines[lines.len() - 1]);
            }
        }
    }
}

/// Taking a channel out of a file takes it, and no other, out of the channels that are read
/// from the file afterwards.
pub proof fn removed_channels_are_not_read_again(content: Seq<char>, channel_id: Seq<char>)
    ensures
        channels_in(without_channel(content, channel_id)) == other_channels(
            channels_in(content),
            channel_id,
        ),
{
    reveal_strlit("\n");
    let kept = lines_without(lines_of(content), channel_id);
    let none = Seq::<char>::empty();
    assert("\n"@ =~= seq!['\n']);
    lemma_lines_have_no_feed(content);
    lemma_kept_lines(lines_of(content), channel_id);
    lemma_other_lines(lines_of(content), channel_id);
    assert(channels_of(lines_of(content)) == channels_in(content));
    let text = joined(kept, seq!['\n']);
    let after = without_channel(content, channel_id);
    assert(trimmed(none).len() == 0);
    assert(channel_of_line(none) is None);
    if kept.len() > 0 {
        lemma_split_joined(kept, '\n');
    } else {
        assert(text =~= none);
        assert(split_at(text, '\n') =~= kept.push(none));
        lemma_channels_push(kept, none);
    }
    assert(channels_of(split_at(text, '\n')) == channels_of(kept));
    lemma_channels_by_pieces(after);
    if content.len() > 0 && content.last() == '\n' {
        assert(after =~= text.push('\n'));
        assert(text.push('\n').drop_last() =~= text);
        lemma_channels_push(split_at(text, '\n'), none);
    } else {
        assert(after =~= text);
    }
}

/// The content of a file without a channel.
pub fn remove_channel_from_subs_file(content: &str, channel_id: &str) -> (r: String)
    ensures
        r@ == without_channel(content@, channel_id@),
{
    let all_lines = lines(content);
    let ghost all = lines_of(content@);
    let mut kept: Vec<String> = Vec::new();
    let mut i: usize = 0;
    assert(texts(kept@) =~= lines_without(all.take(0), channel_id@));
    while i < all_lines.len()
        invariant
            i <= all_lines.len(),
            texts(all_lines@) == all,
            texts(kept@) == lines_without(all.take(i as int), channel_id@),
        decreases all_lines.len() - i,
    {
        let ghost before = texts(kept@);
        assert(all.take(i + 1).drop_last() =~= all.take(i as int));
        assert(all.take(i + 1).last() == all_lines@[i as int]@);
        let line = trim(all_lines[i].as_str());
        let keep = line.is_empty() || line.get_char(0) == '#' || !same(line, channel_id);
        if keep {
            let copy = all_lines[i].clone();
            kept.push(copy);
            assert(texts(kept@) =~= before.push(copy@));
        }
        i += 1;
    }
    assert(all.take(all.len() as int) =~= all);
    let mut output = join(&kept, "\n");
    proof {
        reveal_strlit("\n");
        if "\n"@.is_suffix_of(content@) {
            assert(content@.subrange(content@.len() - 1, content@.len() as int)[0] == '\n');
        }
        if content@.len() > 0 && content@.last() == '\n' {
            assert(content@.subrange(content@.len() - 1, content@.len() as int) =~= "\n"@);
        }
    }
    if ends_with(content, "\n") {
        output.append("\n");
    } else {
        assert(joined(texts(kept@), "\n"@) + Seq::<char>::empty() =~= joined(texts(kept@), "\n"@));
    }
    output
}

/// How many directories are searched from the executable's upwards.
pub const SEARCHED_LEVELS: usize = 4;

/// Where the file of channels is looked for: in the configuration directory, if there is one,
/// and in the first of the given directories, which are the executable's and those above it.
pub open spec fn candidates_in(config_dir: Option<Seq<char>>, levels: Seq<Seq<char>>) -> Seq<
    Seq<char>,
> {
    let searched = if levels.len() <= SEARCHED_LEVELS {
        levels
    } else {
        levels.take(SEARCHED_LEVELS as int)
    };
    let above = searched.map_values(|dir: Seq<char>| joined_path(dir, "youtube-subs.txt"@));
    match config_dir {
        Some(dir) => seq![joined_path(dir, "youtube-subs.txt"@)] + above,
        None => above,
    }
}

/// Where the file of channels is looked for.
pub fn subs_file_candidates(config_dir: Option<&str>, levels: &Vec<String>) -> (candidates: Vec<
    String,
>)
    ensures
        texts(candidates@) == candidates_in(opt_str(config_dir), texts(levels@)),
{
    let ghost dirs = texts(levels@);
    let n: usize = if levels.len() <= SEARCHED_LEVELS {
        levels.len()
    } else {
        SEARCHED_LEVELS
    };
    let ghost above = dirs.take(n as int).map_values(
        |dir: Seq<char>| joined_path(dir, "youtube-subs.txt"@),
    );
    let mut candidates: Vec<String> = Vec::new();
    if let Some(dir) = config_dir {
        let path = join_path(dir, "youtube-subs.txt");
        candidates.push(path);
    }
    let ghost first = texts(candidates@);
    let mut i: usize = 0;
    assert(first =~= first + above.take(0));
    while i < n
        invariant
            i <= n <= levels.len(),
            dirs == texts(levels@),
            above == dirs.take(n as int).map_values(
                |dir: Seq<char>| joined_path(dir, "youtube-subs.txt"@),
            ),
            texts(candidates@) == first + above.take(i as int),
        decreases n - i,
    {
        let ghost before = texts(candidates@);
        let path = join_path(levels[i].as_str(), "youtube-subs.txt");
        candidates.push(path);
        assert(dirs[i as int] == levels@[i as int]@);
        assert(above[i as int] == path@);
        assert(texts(candidates@) =~= before.push(path@));
        assert(above.take(i + 1) =~= above.take(i as int).push(path@));
        assert(before.push(path@) =~= first + above.take(i + 1));
        i += 1;
    }
    proof {
        assert(above.take(n as int) =~= above);
        if n == levels.len() {
            assert(dirs.take(n as int) =~= dirs);
        }
        assert(texts(candidates@) =~= candidates_in(opt_str(config_dir), dirs));
    }
    candidates
}

/// Where the file of channels is.
#[derive(Debug)]
pub enum SubsFile {
    Found(String),
    /// There is none: the path at which it is expected, and what to warn of.
    Expected { path: String, warning: String },
}

/// What is said where the file of channels was not found.
pub open spec fn not_found_text(exe_path: Seq<char>, candidates: Seq<Seq<char>>) -> Seq<char> {
    "Could not find youtube-subs.txt relative to executable "@ + exe_path + ". Searched: "@
        + joined(candidates, ", "@)
}

/// The first candidate that exists; without one the first candidate, where that is the one in
/// the configuration directory, for the file is not needed to start.
pub fn find_subs_file(
    exe_path: &str,
    candidates: &Vec<String>,
    exists: &Vec<bool>,
    has_config_dir: bool,
) -> (r: Result<SubsFile, String>)
    requires
        exists.len() == candidates.len(),
        has_config_dir ==> candidates.len() > 0,
    ensures
        match r {
            Ok(SubsFile::Found(path)) => exists|i: int|
                0 <= i < candidates.len() && #[trigger] exists@[i] && path@ == candidates@[i]@
                    && forall|j: int| 0 <= j < i ==> !#[trigger] exists@[j],
            Ok(SubsFile::Expected { path, warning }) => {
                &&& forall|j: int| 0 <= j < exists.len() ==> !#[trigger] exists@[j]
                &&& has_config_dir
                &&& path@ == candidates@[0]@
                &&& warning@ == not_found_text(exe_path@, texts(candidates@))
                    + ". Continuing without subscriptions; refresh will report a readable error."@
            },
            Err(error) => {
                &&& forall|j: int| 0 <= j < exists.len() ==> !#[trigger] exists@[j]
                &&& !has_config_dir
                &&& error@ == not_found_text(exe_path@, texts(candidates@))
            },
        },
{
    let mut i: usize = 0;
    while i < candidates.len()
        invariant
            i <= candidates.len(),
            exists.len() == candidates.len(),
            forall|j: int| 0 <= j < i ==> !#[trigger] exists@[j],
        decreases candidates.len() - i,
    {
        if exists[i] {
            return Ok(SubsFile::Found(candidates[i].clone()));
        }
        i += 1;
    }
    let searched = join(candidates, ", ");
    let error = "Could not find youtube-subs.txt relative to executable ".to_owned().concat(
        exe_path,
    ).concat(". Searched: ").concat(searched.as_str());
    if has_config_dir {
        Ok(
            SubsFile::Expected {
                path: candidates[0].clone(),
                warning: error.concat(
                    ". Continuing without subscriptions; refresh will report a readable error.",
                ),
            },
        )
    } else {
        Err(error)
    }
}

/// A line goes where it names the channel, and every other line stays as it is and where it
/// is, comments and blank lines among them.
pub proof fn other_lines_stay(
    first: Seq<Seq<char>>,
    second: Seq<Seq<char>>,
    line: Seq<char>,
    channel_id: Seq<char>,
)
    ensures
        lines_without(first + second, channel_id) == lines_without(first, channel_id)
            + lines_without(second, channel_id),
        channel_of_line(line) == Some(channel_id) ==> lines_without(seq![line], channel_id) == Seq::<
            Seq<char>,
        >::empty(),
        channel_of_line(line) != Some(channel_id) ==> lines_without(seq![line], channel_id) == seq![
            line,
        ],
    decreases second.len(),
{
    let none = Seq::<Seq<char>>::empty();
    assert(seq![line].drop_last() =~= none);
    assert(lines_without(none, channel_id) =~= none);
    assert(none.push(line) =~= seq![line]);
    if second.len() == 0 {
        assert(first + second =~= first);
        assert(lines_without(first, channel_id) + none =~= lines_without(first, channel_id));
    } else {
        other_lines_stay(first, second.drop_last(), line, channel_id);
        assert((first + second).drop_last() =~= first + second.drop_last());
        assert((first + second).last() == second.last());
        assert(lines_without(first + second, channel_id) =~= lines_without(first, channel_id)
            + lines_without(second, channel_id));
    }
}

/// Lines name a channel by the text on them, padding left out, unless it begins with a hash.
pub proof fn only_lines_with_the_channel_go(line: Seq<char>, channel_id: Seq<char>)
    ensures
        channel_of_line(line) == Some(channel_id) <==> (trimmed(line) == channel_id
            && channel_id.len() > 0 && channel_id[0] != '#'),
{
}

/// Every channel but the one stays in its place.
pub proof fn other_channels_stay(
    first: Seq<Seq<char>>,
    second: Seq<Seq<char>>,
    channel: Seq<char>,
    channel_id: Seq<char>,
)
    ensures
        other_channels(first + second, channel_id) == other_channels(first, channel_id)
            + other_channels(second, channel_id),
        other_channels(seq![channel_id], channel_id) == Seq::<Seq<char>>::empty(),
        channel != channel_id ==> other_channels(seq![channel], channel_id) == seq![channel],
    decreases second.len(),
{
    let none = Seq::<Seq<char>>::empty();
    assert(seq![channel].drop_last() =~= none);
    assert(seq![channel_id].drop_last() =~= none);
    assert(other_channels(none, channel_id) =~= none);
    assert(none.push(channel) =~= seq![channel]);
    if second.len() == 0 {
        assert(first + second =~= first);
        assert(other_channels(first, channel_id) + none =~= other_channels(first, channel_id));
    } else {
        other_channels_stay(first, second.drop_last(), channel, channel_id);
        assert((first + second).drop_last() =~= first + second.drop_last());
        assert((first + second).last() == second.last());
        assert(other_channels(first + second, channel_id) =~= other_channels(first, channel_id)
            + other_channels(second, channel_id));
    }
}

/// The lines that stay are put together again with line feeds between them, and a line feed at
/// the end stays.
pub proof fn files_keep_their_line_feeds(content: Seq<char>, channel_id: Seq<char>)
    ensures
        ({
            let after = without_channel(content, channel_id);
            let kept = lines_without(lines_of(content), channel_id);
            let ended = content.len() > 0 && content[content.len() - 1] == '\n';
            &&& ended ==> after == joined(kept, seq!['\n']).push('\n')
            &&& !ended ==> after == joined(kept, seq!['\n'])
        }),
{
    reveal_strlit("\n");
    assert("\n"@ =~= seq!['\n']);
    let text = joined(lines_without(lines_of(content), channel_id), seq!['\n']);
    assert(text + seq!['\n'] =~= text.push('\n'));
    assert(text + Seq::<char>::empty() =~= text);
}

/// The file of channels is looked for in the configuration directory first, and after it in at
/// most four directories, in their order.
pub proof fn the_configuration_directory_comes_first(
    config_dir: Seq<char>,
    levels: Seq<Seq<char>>,
    i: int,
)
    requires
        0 <= i < levels.len(),
    ensures
        ({
            let without = candidates_in(None, levels);
            let with = candidates_in(Some(config_dir), levels);
            &&& with[0] == joined_path(config_dir, "youtube-subs.txt"@)
            &&& with.len() == without.len() + 1
            &&& without.len() == if levels.len() <= 4 {
                levels.len() as int
            } else {
                4
            }
            &&& i < 4 ==> without[i] == joined_path(levels[i], "youtube-subs.txt"@)
            &&& i < 4 ==> with[i + 1] == without[i]
        }),
{
}

/// Where the file of channels was not found, all places are told that it was looked for in.
pub proof fn searched_places_are_told(exe_path: Seq<char>, candidates: Seq<Seq<char>>)
    ensures
        not_found_text(exe_path, candidates)
            == "Could not find youtube-subs.txt relative to executable "@ + exe_path
            + ". Searched: "@ + joined(candidates, ", "@),
{
}

} // verus!
